use vstd::prelude::*;

use crate::image::{Image, Raster, raster_of, lemma_raster_ext};
use crate::rgba::{
    Rgba, ONE, spec_add, spec_sub, spec_mul, spec_div, spec_min, spec_max, spec_abs, spec_gray,
    spec_grayscale, spec_less, tdiv,
};
use vstd::arithmetic::div_mod::lemma_fundamental_div_mod_converse;

verus! {

/// A coordinate shifted by `d` and clamped into `[0, n)` (edge replication).
pub open spec fn clamp_coord(v: int, n: int) -> int {
    if v > n - 1 {
        if n - 1 < 0 { 0 } else { n - 1 }
    } else if v < 0 {
        0
    } else {
        v
    }
}

/// A transform that acts on each pixel alone.
#[derive(Clone, Copy, Debug, PartialEq, Eq, Structural)]
pub enum PixelOp {
    Dim(Rgba),
    Grayscale,
    Invert,
    Abs,
}

pub open spec fn pixel_sem(op: PixelOp, p: Rgba) -> Rgba {
    match op {
        PixelOp::Dim(f) => spec_mul(p, f),
        PixelOp::Grayscale => spec_grayscale(p),
        PixelOp::Invert => spec_sub(spec_gray(ONE), p),
        PixelOp::Abs => spec_abs(p),
    }
}

/// A combination of two rasters pixel by pixel.
#[derive(Clone, Copy, Debug, PartialEq, Eq, Structural)]
pub enum ZipOp {
    Add,
    /// Difference that keeps the left pixel's alpha.
    Sub,
    /// Adds the right raster recentred around zero: `(q - gray(0.5)) * gray(2)`.
    Ennoise,
    Min,
    Max,
    /// The channel-wise average.
    Mean,
}

pub open spec fn zip_sem(op: ZipOp, p: Rgba, q: Rgba) -> Rgba {
    match op {
        ZipOp::Add => spec_add(p, q),
        ZipOp::Sub => Rgba { a: p.a, ..spec_sub(p, q) },
        ZipOp::Ennoise => spec_add(p, spec_mul(spec_sub(q, spec_gray(32768)), spec_gray(131072))),
        ZipOp::Min => spec_min(p, q),
        ZipOp::Max => spec_max(p, q),
        ZipOp::Mean => spec_div(spec_add(p, q), 2),
    }
}

/// The pixel of `o` used at `(x, y)`: coordinates are clamped into `o`; an
/// empty `o` gives black.
pub open spec fn operand_at(o: Raster, x: int, y: int) -> Rgba {
    if o.width == 0 || o.height == 0 {
        Rgba::spec_black()
    } else {
        o.at(clamp_coord(x, o.width as int), clamp_coord(y, o.height as int))
    }
}

pub open spec fn spec_offset(m: Raster, dx: int, dy: int) -> Raster {
    raster_of(
        m.width,
        m.height,
        |x: int, y: int| m.at(clamp_coord(x + dx, m.width as int), clamp_coord(y + dy, m.height as int)),
    )
}

pub open spec fn spec_map(m: Raster, op: PixelOp) -> Raster {
    raster_of(m.width, m.height, |x: int, y: int| pixel_sem(op, m.at(x, y)))
}

pub open spec fn spec_zip(m: Raster, o: Raster, op: ZipOp) -> Raster {
    raster_of(m.width, m.height, |x: int, y: int| zip_sem(op, m.at(x, y), operand_at(o, x, y)))
}

/// The copy of `m` for kernel cell number `c` (cells counted column by column),
/// read at `(x, y)`: shifted by the cell's distance from the kernel centre and
/// dimmed by the cell's weight.
pub open spec fn kernel_term(m: Raster, k: Raster, x: int, y: int, c: int) -> Rgba {
    let cx = c / (k.height as int);
    let cy = c % (k.height as int);
    spec_mul(
        m.at(
            clamp_coord(x + cx - (k.width as int) / 2, m.width as int),
            clamp_coord(y + cy - (k.height as int) / 2, m.height as int),
        ),
        k.at(cx, cy),
    )
}

/// The first `n` weighted copies folded together with `op`, read at `(x, y)`.
pub open spec fn conv_px(m: Raster, k: Raster, op: ZipOp, x: int, y: int, n: int) -> Rgba
    decreases n,
{
    if n <= 1 {
        kernel_term(m, k, x, y, 0)
    } else {
        zip_sem(op, conv_px(m, k, op, x, y, n - 1), kernel_term(m, k, x, y, n - 1))
    }
}

/// Convolution of `m` with kernel `k`, the copies folded with `op`; an empty
/// kernel leaves the raster as it is.
pub open spec fn spec_convolve(m: Raster, k: Raster, op: ZipOp) -> Raster {
    if k.width == 0 || k.height == 0 {
        m
    } else {
        raster_of(m.width, m.height, |x: int, y: int| conv_px(m, k, op, x, y, (k.width * k.height) as int))
    }
}

/// `p` is kept by non-max suppression when it is strictly greater than both
/// neighbours in one of the four directions.
pub open spec fn local_max(m: Raster, x: int, y: int) -> bool {
    let xp = if x > 0 { x - 1 } else { 0 };
    let xn = clamp_coord(x + 1, m.width as int);
    let yp = if y > 0 { y - 1 } else { 0 };
    let yn = clamp_coord(y + 1, m.height as int);
    let c = m.at(x, y);
    ||| spec_less(m.at(xp, yp), c) && spec_less(m.at(xn, yn), c)
    ||| spec_less(m.at(xp, y), c) && spec_less(m.at(xn, y), c)
    ||| spec_less(m.at(x, yp), c) && spec_less(m.at(x, yn), c)
    ||| spec_less(m.at(xp, yn), c) && spec_less(m.at(xn, yp), c)
}

pub open spec fn spec_non_max(m: Raster) -> Raster {
    raster_of(
        m.width,
        m.height,
        |x: int, y: int| if local_max(m, x, y) { m.at(x, y) } else { Rgba::spec_black() },
    )
}

/// The intensity used by quantization: the average of red, green and blue.
pub open spec fn intensity(p: Rgba) -> int {
    tdiv(p.r + p.g + p.b, 3)
}

/// The position, in the thresholds taken from the largest index down, of the
/// first one that `v` meets, counting from `n`; the count of thresholds when
/// none is met.
pub open spec fn level_from(v: int, ts: Seq<i64>, n: int) -> int
    decreases ts.len() - n,
{
    if n >= ts.len() {
        ts.len() as int
    } else if v >= ts[ts.len() - 1 - n] {
        n
    } else {
        level_from(v, ts, n + 1)
    }
}

/// The gray of level `n` out of `len`: `n / len`.
pub open spec fn level_gray(n: int, len: int) -> Rgba {
    spec_gray((if len == 0 { 0 } else { n * (ONE as int) / len }) as i64)
}

pub open spec fn quantize_px(p: Rgba, ts: Seq<i64>) -> Rgba {
    level_gray(level_from(intensity(p), ts, 0), ts.len() as int)
}

pub open spec fn spec_quantize(m: Raster, ts: Seq<i64>) -> Raster {
    raster_of(m.width, m.height, |x: int, y: int| quantize_px(m.at(x, y), ts))
}

/// A well-formed raster that agrees with `f` everywhere is the raster of `f`.
pub proof fn lemma_matches(r: Raster, w: nat, h: nat, f: spec_fn(int, int) -> Rgba)
    requires
        r.wf(),
        r.width == w,
        r.height == h,
        forall|x: int, y: int| 0 <= x < w && 0 <= y < h ==> #[trigger] r.at(x, y) == f(x, y),
    ensures
        r == raster_of(w, h, f),
{
    let s = raster_of(w, h, f);
    assert forall|x: int, y: int| r.in_bounds(x, y) implies #[trigger] r.at(x, y) == s.at(x, y) by {
        assert(r.at(x, y) == f(x, y));
    }
    lemma_raster_ext(r, s);
}

fn clamp_index(i: usize, d: i64, n: usize) -> (r: usize)
    requires
        i < n,
    ensures
        r == clamp_coord(i + d, n as int),
        r < n,
{
    let v = i as i128 + d as i128;
    if v > n as i128 - 1 {
        n - 1
    } else if v < 0 {
        0
    } else {
        v as usize
    }
}

fn apply_pixel(op: PixelOp, p: Rgba) -> (r: Rgba)
    ensures
        r == pixel_sem(op, p),
{
    match op {
        PixelOp::Dim(f) => p.mul(f),
        PixelOp::Grayscale => p.grayscale(),
        PixelOp::Invert => Rgba::gray(ONE).sub(p),
        PixelOp::Abs => p.abs(),
    }
}

fn zip_pixel(op: ZipOp, p: Rgba, q: Rgba) -> (r: Rgba)
    ensures
        r == zip_sem(op, p, q),
{
    match op {
        ZipOp::Add => p.add(q),
        ZipOp::Sub => p.sub(q).with_alpha(p.a),
        ZipOp::Ennoise => p.add(q.sub(Rgba::gray(32768)).mul(Rgba::gray(131072))),
        ZipOp::Min => p.min(q),
        ZipOp::Max => p.max(q),
        ZipOp::Mean => p.add(q).div(2),
    }
}

/// Shifts the content by `(dx, dy)`: the pixel at `(x, y)` is read from
/// `(x + dx, y + dy)`, clamped to the nearest edge.
pub fn offset_image(img: &Image, dx: i64, dy: i64) -> (r: Image)
    ensures
        r@ == spec_offset(img@, dx as int, dy as int),
{
    let w = img.width();
    let h = img.height();
    let f = |x: usize, y: usize| -> (p: Rgba)
        requires
            x < w,
            y < h,
            w == img@.width,
            h == img@.height,
        ensures
            p == img@.at(clamp_coord(x + dx, w as int), clamp_coord(y + dy, h as int)),
        { img.index(clamp_index(x, dx, w), clamp_index(y, dy, h)) };
    let r = img.similar(f);
    proof {
        let m = img@;
        assert forall|x: int, y: int| 0 <= x < m.width && 0 <= y < m.height implies #[trigger] r@.at(x, y)
            == m.at(clamp_coord(x + dx, m.width as int), clamp_coord(y + dy, m.height as int)) by {
            assert(f.ensures((x as usize, y as usize), r@.at(x, y)));
        }
        lemma_matches(r@, m.width, m.height,
            |x: int, y: int| m.at(clamp_coord(x + dx, m.width as int), clamp_coord(y + dy, m.height as int)));
    }
    r
}

/// Applies a pixel transform to every pixel.
pub fn map_image(img: &Image, op: PixelOp) -> (r: Image)
    ensures
        r@ == spec_map(img@, op),
{
    let w = img.width();
    let h = img.height();
    let f = |x: usize, y: usize| -> (p: Rgba)
        requires
            x < w,
            y < h,
            w == img@.width,
            h == img@.height,
        ensures
            p == pixel_sem(op, img@.at(x as int, y as int)),
        { apply_pixel(op, img.index(x, y)) };
    let r = img.similar(f);
    proof {
        let m = img@;
        assert forall|x: int, y: int| 0 <= x < m.width && 0 <= y < m.height implies #[trigger] r@.at(x, y)
            == pixel_sem(op, m.at(x, y)) by {
            assert(f.ensures((x as usize, y as usize), r@.at(x, y)));
        }
        lemma_matches(r@, m.width, m.height, |x: int, y: int| pixel_sem(op, m.at(x, y)));
    }
    r
}

fn operand_pixel(o: &Image, x: usize, y: usize) -> (p: Rgba)
    ensures
        p == operand_at(o@, x as int, y as int),
{
    let w = o.width();
    let h = o.height();
    if w == 0 || h == 0 {
        Rgba::black()
    } else {
        let cx = if x > w - 1 { w - 1 } else { x };
        let cy = if y > h - 1 { h - 1 } else { y };
        o.index(cx, cy)
    }
}

/// Combines two rasters pixel by pixel; the result has the size of `img`.
pub fn zip_image(img: &Image, other: &Image, op: ZipOp) -> (r: Image)
    ensures
        r@ == spec_zip(img@, other@, op),
{
    let w = img.width();
    let h = img.height();
    let f = |x: usize, y: usize| -> (p: Rgba)
        requires
            x < w,
            y < h,
            w == img@.width,
            h == img@.height,
        ensures
            p == zip_sem(op, img@.at(x as int, y as int), operand_at(other@, x as int, y as int)),
        { zip_pixel(op, img.index(x, y), operand_pixel(other, x, y)) };
    let r = img.similar(f);
    proof {
        let m = img@;
        let o = other@;
        assert forall|x: int, y: int| 0 <= x < m.width && 0 <= y < m.height implies #[trigger] r@.at(x, y)
            == zip_sem(op, m.at(x, y), operand_at(o, x, y)) by {
            assert(f.ensures((x as usize, y as usize), r@.at(x, y)));
        }
        lemma_matches(r@, m.width, m.height, |x: int, y: int| zip_sem(op, m.at(x, y), operand_at(o, x, y)));
    }
    r
}

/// The all-white square kernel of the given size.
pub open spec fn white_kernel(size: nat) -> Raster {
    raster_of(size, size, |x: int, y: int| Rgba::spec_white())
}

/// Approximates a median over a `size` by `size` neighbourhood by the average
/// of the neighbourhood's minimum and maximum (not an order statistic).
pub open spec fn spec_median(m: Raster, size: nat) -> Raster {
    spec_zip(
        spec_convolve(m, white_kernel(size), ZipOp::Min),
        spec_convolve(m, white_kernel(size), ZipOp::Max),
        ZipOp::Mean,
    )
}

fn shift_index(x: usize, c: usize, half: usize, n: usize) -> (r: usize)
    requires
        x < n,
    ensures
        r == clamp_coord(x + c - half, n as int),
        r < n,
{
    let v = x as i128 + c as i128 - half as i128;
    if v > n as i128 - 1 {
        n - 1
    } else if v < 0 {
        0
    } else {
        v as usize
    }
}

/// A copy of a raster.
pub fn copy_image(img: &Image) -> (r: Image)
    ensures
        r@ == img@,
{
    let w = img.width();
    let h = img.height();
    let f = |x: usize, y: usize| -> (p: Rgba)
        requires
            x < w,
            y < h,
            w == img@.width,
            h == img@.height,
        ensures
            p == img@.at(x as int, y as int),
        { img.index(x, y) };
    let r = img.similar(f);
    proof {
        assert forall|x: int, y: int| r@.in_bounds(x, y) implies #[trigger] r@.at(x, y) == img@.at(x, y) by {
            assert(f.ensures((x as usize, y as usize), r@.at(x, y)));
        }
        lemma_raster_ext(r@, img@);
    }
    r
}

fn conv_pixel(img: &Image, k: &Image, op: ZipOp, x: usize, y: usize) -> (p: Rgba)
    requires
        x < img@.width,
        y < img@.height,
        k@.width > 0,
        k@.height > 0,
    ensures
        p == conv_px(img@, k@, op, x as int, y as int, (k@.width * k@.height) as int),
{
    let kw = k.width();
    let kh = k.height();
    let w = img.width();
    let h = img.height();
    let mut acc = Rgba::black();
    let mut cx: usize = 0;
    let ghost mut n: int = 0;
    while cx < kw
        invariant
            kw == k@.width,
            kh == k@.height,
            kh > 0,
            w == img@.width,
            h == img@.height,
            x < w,
            y < h,
            cx <= kw,
            n == cx * kh,
            n >= 1 ==> acc == conv_px(img@, k@, op, x as int, y as int, n),
        decreases kw - cx,
    {
        let mut cy: usize = 0;
        while cy < kh
            invariant
                kw == k@.width,
                kh == k@.height,
                kh > 0,
                w == img@.width,
                h == img@.height,
                x < w,
                y < h,
                cx < kw,
                cy <= kh,
                n == cx * kh + cy,
                n >= 1 ==> acc == conv_px(img@, k@, op, x as int, y as int, n),
            decreases kh - cy,
        {
            let sx = shift_index(x, cx, kw / 2, w);
            let sy = shift_index(y, cy, kh / 2, h);
            let t = img.index(sx, sy).mul(k.index(cx, cy));
            proof {
                lemma_fundamental_div_mod_converse(n, kh as int, cx as int, cy as int);
                assert(t == kernel_term(img@, k@, x as int, y as int, n));
            }
            if cx == 0 && cy == 0 {
                acc = t;
                assert(n == 0) by (nonlinear_arith)
                    requires
                        n == cx * kh + cy,
                        cx == 0,
                        cy == 0,
                ;
                assert(acc == conv_px(img@, k@, op, x as int, y as int, n + 1));
            } else {
                assert(n >= 1) by (nonlinear_arith)
                    requires
                        n == cx * kh + cy,
                        !(cx == 0 && cy == 0),
                        kh > 0,
                ;
                acc = zip_pixel(op, acc, t);
                assert(acc == conv_px(img@, k@, op, x as int, y as int, n + 1));
            }
            proof {
                n = n + 1;
            }
            cy = cy + 1;
        }
        assert(n == (cx + 1) * kh) by (nonlinear_arith)
            requires
                n == cx * kh + kh,
        ;
        cx = cx + 1;
    }
    assert(n == kw * kh);
    assert(kw * kh >= 1) by (nonlinear_arith)
        requires
            kw >= 1,
            kh >= 1,
    ;
    acc
}

/// Convolves a raster with a kernel: for each kernel cell, a copy of the raster
/// shifted by the cell's distance from the centre (clamped at the edges) and
/// dimmed by the cell's weight; the copies are folded together with `op`.
pub fn convolve_image(img: &Image, k: &Image, op: ZipOp) -> (r: Image)
    ensures
        r@ == spec_convolve(img@, k@, op),
{
    let kw = k.width();
    let kh = k.height();
    if kw == 0 || kh == 0 {
        return copy_image(img);
    }
    let w = img.width();
    let h = img.height();
    let f = |x: usize, y: usize| -> (p: Rgba)
        requires
            x < w,
            y < h,
            w == img@.width,
            h == img@.height,
            k@.width > 0,
            k@.height > 0,
        ensures
            p == conv_px(img@, k@, op, x as int, y as int, (k@.width * k@.height) as int),
        { conv_pixel(img, k, op, x, y) };
    let r = img.similar(f);
    proof {
        let m = img@;
        let kk = k@;
        assert forall|x: int, y: int| 0 <= x < m.width && 0 <= y < m.height implies #[trigger] r@.at(x, y)
            == conv_px(m, kk, op, x, y, (kk.width * kk.height) as int) by {
            assert(f.ensures((x as usize, y as usize), r@.at(x, y)));
        }
        lemma_matches(r@, m.width, m.height,
            |x: int, y: int| conv_px(m, kk, op, x, y, (kk.width * kk.height) as int));
    }
    r
}

/// The median approximation over a `size` by `size` neighbourhood.
pub fn median_image(img: &Image, size: usize) -> (r: Image)
    ensures
        r@ == spec_median(img@, size as nat),
{
    let kernel = Image::from_pixel(size, size, Rgba::white());
    proof {
        lemma_matches(kernel@, size as nat, size as nat, |x: int, y: int| Rgba::spec_white());
    }
    let lo = convolve_image(img, &kernel, ZipOp::Min);
    let hi = convolve_image(img, &kernel, ZipOp::Max);
    zip_image(&lo, &hi, ZipOp::Mean)
}

fn is_local_max(img: &Image, x: usize, y: usize) -> (b: bool)
    requires
        x < img@.width,
        y < img@.height,
    ensures
        b == local_max(img@, x as int, y as int),
{
    let w = img.width();
    let h = img.height();
    let xp = if x > 0 { x - 1 } else { 0 };
    let xn = if x + 1 > w - 1 { w - 1 } else { x + 1 };
    let yp = if y > 0 { y - 1 } else { 0 };
    let yn = if y + 1 > h - 1 { h - 1 } else { y + 1 };
    let c = img.index(x, y);
    (img.index(xp, yp).less_than(&c) && img.index(xn, yn).less_than(&c))
        || (img.index(xp, y).less_than(&c) && img.index(xn, y).less_than(&c))
        || (img.index(x, yp).less_than(&c) && img.index(x, yn).less_than(&c))
        || (img.index(xp, yn).less_than(&c) && img.index(xn, yp).less_than(&c))
}

/// Keeps the pixels that are local maxima along one of the four directions
/// through them and turns the others black.
pub fn non_max_image(img: &Image) -> (r: Image)
    ensures
        r@ == spec_non_max(img@),
{
    let w = img.width();
    let h = img.height();
    let f = |x: usize, y: usize| -> (p: Rgba)
        requires
            x < w,
            y < h,
            w == img@.width,
            h == img@.height,
        ensures
            p == (if local_max(img@, x as int, y as int) { img@.at(x as int, y as int) } else {
                Rgba::spec_black()
            }),
        {
            if is_local_max(img, x, y) {
                img.index(x, y)
            } else {
                Rgba::black()
            }
        };
    let r = img.similar(f);
    proof {
        let m = img@;
        assert forall|x: int, y: int| 0 <= x < m.width && 0 <= y < m.height implies #[trigger] r@.at(x, y)
            == (if local_max(m, x, y) { m.at(x, y) } else { Rgba::spec_black() }) by {
            assert(f.ensures((x as usize, y as usize), r@.at(x, y)));
        }
        lemma_matches(r@, m.width, m.height,
            |x: int, y: int| if local_max(m, x, y) { m.at(x, y) } else { Rgba::spec_black() });
    }
    r
}

fn quantize_pixel(p: Rgba, ts: &Vec<i64>) -> (q: Rgba)
    ensures
        q == quantize_px(p, ts@),
{
    let v = (p.r as i128 + p.g as i128 + p.b as i128);
    let v = if v >= 0 { v / 3 } else { -((-v) / 3) };
    let len = ts.len();
    let mut n: usize = 0;
    while n < len && v < ts[len - 1 - n] as i128
        invariant
            len == ts@.len(),
            n <= len,
            v == intensity(p),
            level_from(v as int, ts@, 0) == level_from(v as int, ts@, n as int),
        decreases len - n,
    {
        n = n + 1;
    }
    assert(level_from(v as int, ts@, n as int) == n);
    let level: i64 = if len == 0 {
        0
    } else {
        assert(n as int * 65536 <= len as int * 65536) by (nonlinear_arith)
            requires
                n <= len,
        ;
        assert(n as int * 65536 / len as int <= 65536) by (nonlinear_arith)
            requires
                n <= len,
                len > 0,
                n as int * 65536 <= len as int * 65536,
        {
            vstd::arithmetic::div_mod::lemma_div_is_ordered(n as int * 65536, len as int * 65536, len as int);
            vstd::arithmetic::div_mod::lemma_div_multiples_vanish(65536, len as int);
        }
        ((n as i128 * 65536) / len as i128) as i64
    };
    Rgba::gray(level)
}

/// Reduces each pixel to one of `thresholds.len() + 1` gray levels.
pub fn quantize_image(img: &Image, thresholds: &Vec<i64>) -> (r: Image)
    ensures
        r@ == spec_quantize(img@, thresholds@),
{
    let w = img.width();
    let h = img.height();
    let f = |x: usize, y: usize| -> (p: Rgba)
        requires
            x < w,
            y < h,
            w == img@.width,
            h == img@.height,
        ensures
            p == quantize_px(img@.at(x as int, y as int), thresholds@),
        { quantize_pixel(img.index(x, y), thresholds) };
    let r = img.similar(f);
    proof {
        let m = img@;
        let ts = thresholds@;
        assert forall|x: int, y: int| 0 <= x < m.width && 0 <= y < m.height implies #[trigger] r@.at(x, y)
            == quantize_px(m.at(x, y), ts) by {
            assert(f.ensures((x as usize, y as usize), r@.at(x, y)));
        }
        lemma_matches(r@, m.width, m.height, |x: int, y: int| quantize_px(m.at(x, y), ts));
    }
    r
}

} // verus!
