use vstd::prelude::*;

use crate::image::{Raster, raster_of, lemma_raster_ext};
use crate::pipeline::{CpuPipeline, run, black_raster, gradient_kernel};
use crate::rgba::{Rgba, ONE, chan_mul, tdiv, sat};
use crate::transform::{spec_non_max, local_max, spec_median, white_kernel, spec_zip, zip_sem, operand_at, ZipOp, clamp_coord, spec_offset, spec_convolve, kernel_term, conv_px};
use vstd::arithmetic::div_mod::{lemma_div_multiples_vanish, lemma_fundamental_div_mod};
use crate::transform::{PixelOp, spec_map};
use crate::rgba::{spec_mul, spec_less};
use crate::image::{channel, pack, unpack, packed_byte, flat_index, lemma_flat_index, lemma_flat_decompose};
use crate::rgba::{chan_byte, byte_chan};

verus! {

/// A pipeline with no steps returns its input unchanged.
pub proof fn lemma_empty_pipeline(p: CpuPipeline, m: Raster)
    requires
        p.steps@.len() == 0,
    ensures
        run(p, m) == m,
{
}

/// Shifting by `(dx, dy)` and then by `(-dx, -dy)` restores every pixel whose
/// shifted position lies inside the raster; only the border strips that edge
/// replication filled may differ.
pub proof fn lemma_offset_round_trip(m: Raster, dx: int, dy: int, x: int, y: int)
    requires
        m.wf(),
        m.in_bounds(x, y),
        m.in_bounds(x - dx, y - dy),
    ensures
        spec_offset(spec_offset(m, dx, dy), -dx, -dy).at(x, y) == m.at(x, y),
{
    let m1 = spec_offset(m, dx, dy);
    assert(m1.at(x - dx, y - dy) == m.at(
        clamp_coord(x - dx + dx, m.width as int),
        clamp_coord(y - dy + dy, m.height as int),
    ));
}

/// Multiplying by the fixed-point one leaves a channel as it is.
pub proof fn lemma_mul_one(c: i64)
    ensures
        chan_mul(c as int, ONE as int) == c,
{
    lemma_div_multiples_vanish(c as int, ONE as int);
    lemma_div_multiples_vanish(-c, ONE as int);
    assert(c * 65536 == 65536 * c);
    assert(-(c * 65536) == 65536 * (-c));
}

/// The 1 by 1 kernel of weight one (all channels), folded by addition.
pub open spec fn unit_kernel() -> Raster {
    raster_of(1, 1, |x: int, y: int| Rgba::spec_white())
}

/// Convolving with the 1 by 1 kernel of weight one is the identity.
pub proof fn lemma_unit_convolution(m: Raster)
    requires
        m.wf(),
    ensures
        spec_convolve(m, unit_kernel(), ZipOp::Add) == m,
{
    let k = unit_kernel();
    let r = spec_convolve(m, k, ZipOp::Add);
    assert forall|x: int, y: int| r.in_bounds(x, y) implies #[trigger] r.at(x, y) == m.at(x, y) by {
        assert(r.at(x, y) == conv_px(m, k, ZipOp::Add, x, y, 1));
        assert(k.at(0, 0) == Rgba::spec_white());
        let p = m.at(x, y);
        assert(kernel_term(m, k, x, y, 0) == crate::rgba::spec_mul(p, Rgba::spec_white()));
        lemma_mul_one(p.r);
        lemma_mul_one(p.g);
        lemma_mul_one(p.b);
        lemma_mul_one(p.a);
    }
    lemma_raster_ext(r, m);
}

/// Dimming channel `a` by `f1` and then by `f2` rounds nowhere: both products
/// with `f1` are whole in fixed point and fit in `i64`.
pub open spec fn exact_dim_chan(a: int, f1: int, f2: int) -> bool {
    &&& (a * f1) % (ONE as int) == 0
    &&& (f1 * f2) % (ONE as int) == 0
    &&& i64::MIN <= (a * f1) / (ONE as int) <= i64::MAX
    &&& i64::MIN <= (f1 * f2) / (ONE as int) <= i64::MAX
}

pub open spec fn exact_dim(p: Rgba, f1: Rgba, f2: Rgba) -> bool {
    forall|k: int| 0 <= k < 4 ==> exact_dim_chan(
        #[trigger] channel(p, k) as int,
        channel(f1, k) as int,
        channel(f2, k) as int,
    )
}

proof fn lemma_exact_tdiv(n: int) -> (q: int)
    requires
        n % (ONE as int) == 0,
    ensures
        q == n / (ONE as int),
        tdiv(n, ONE as int) == q,
        n == q * ONE,
{
    let q = n / (ONE as int);
    lemma_fundamental_div_mod(n, ONE as int);
    assert(n == 65536 * q);
    if n < 0 {
        lemma_div_multiples_vanish(-q, 65536);
        assert(-n == 65536 * (-q));
    }
    q
}

proof fn lemma_dim_chan(a: i64, f1: i64, f2: i64)
    requires
        exact_dim_chan(a as int, f1 as int, f2 as int),
    ensures
        chan_mul(chan_mul(a as int, f1 as int) as int, f2 as int) == chan_mul(a as int, chan_mul(f1 as int, f2 as int) as int),
{
    let q = lemma_exact_tdiv(a * f1);
    let m = lemma_exact_tdiv(f1 * f2);
    assert(chan_mul(a as int, f1 as int) == q);
    assert(chan_mul(f1 as int, f2 as int) == m);
    assert(q * f2 == a * m) by (nonlinear_arith)
        requires
            a * f1 == q * 65536,
            f1 * f2 == m * 65536,
    {
        assert((q * f2) * 65536 == (q * 65536) * f2);
        assert((a * f1) * f2 == a * (f1 * f2));
        assert(a * (m * 65536) == (a * m) * 65536);
    }
}

/// Dimming by `f1` and then by `f2` equals dimming once by `f1 * f2`, wherever
/// neither product rounds or saturates.
pub proof fn lemma_dim_twice(m: Raster, f1: Rgba, f2: Rgba)
    requires
        m.wf(),
        forall|x: int, y: int| m.in_bounds(x, y) ==> exact_dim(#[trigger] m.at(x, y), f1, f2),
    ensures
        spec_map(spec_map(m, PixelOp::Dim(f1)), PixelOp::Dim(f2)) == spec_map(m, PixelOp::Dim(spec_mul(f1, f2))),
{
    let l = spec_map(spec_map(m, PixelOp::Dim(f1)), PixelOp::Dim(f2));
    let r = spec_map(m, PixelOp::Dim(spec_mul(f1, f2)));
    assert forall|x: int, y: int| l.in_bounds(x, y) implies #[trigger] l.at(x, y) == r.at(x, y) by {
        let p = m.at(x, y);
        assert(exact_dim(p, f1, f2));
        assert(channel(p, 0) == p.r);
        assert(channel(p, 1) == p.g);
        assert(channel(p, 2) == p.b);
        assert(channel(p, 3) == p.a);
        lemma_dim_chan(p.r, f1.r, f2.r);
        lemma_dim_chan(p.g, f1.g, f2.g);
        lemma_dim_chan(p.b, f1.b, f2.b);
        lemma_dim_chan(p.a, f1.a, f2.a);
    }
    lemma_raster_ext(l, r);
}

/// A channel through a byte and back loses less than one step of 1/256 and is
/// then stable.
proof fn lemma_byte_chan(c: i64)
    ensures
        0 <= c <= ONE ==> 0 <= c - byte_chan(chan_byte(c as int)) <= 256,
        chan_byte(byte_chan(chan_byte(c as int)) as int) == chan_byte(c as int),
{
    let b = chan_byte(c as int);
    if 0 < c < 255 * 256 {
        vstd::arithmetic::div_mod::lemma_fundamental_div_mod(c as int, 256);
        vstd::arithmetic::div_mod::lemma_mod_pos_bound(c as int, 256);
    }
    if 0 < b < 255 {
        lemma_div_multiples_vanish(b as int, 256);
        assert(b as int * 256 == 256 * b as int);
    }
}

/// All channels of the raster lie in [0, 1].
pub open spec fn in_unit_range(m: Raster) -> bool {
    forall|x: int, y: int, k: int|
        m.in_bounds(x, y) && 0 <= k < 4 ==> 0 <= #[trigger] channel(m.at(x, y), k) <= ONE
}

/// Packing to bytes and unpacking again changes each channel in [0, 1] by at
/// most one quantization step (1/256, downward), and packing the result gives
/// the same bytes again.
pub proof fn lemma_pack_round_trip(m: Raster)
    requires
        m.wf(),
        m.width > 0,
        in_unit_range(m),
    ensures
        unpack(m.width, m.height, pack(m)).wf(),
        forall|x: int, y: int, k: int|
            m.in_bounds(x, y) && 0 <= k < 4 ==> 0 <= channel(m.at(x, y), k) - #[trigger] channel(
                unpack(m.width, m.height, pack(m)).at(x, y),
                k,
            ) <= 256,
        pack(unpack(m.width, m.height, pack(m))) == pack(m),
{
    let w = m.width as int;
    let h = m.height as int;
    let bytes = pack(m);
    let u = unpack(m.width, m.height, bytes);
    assert forall|x: int, y: int, k: int| m.in_bounds(x, y) && 0 <= k < 4 implies #[trigger] channel(u.at(x, y), k)
        == byte_chan(chan_byte(channel(m.at(x, y), k) as int)) by {
        lemma_flat_index(w, h, x, y, k);
        let i = flat_index(w, x, y, k);
        assert(bytes[i] == packed_byte(m, i));
    }
    assert forall|x: int, y: int, k: int| m.in_bounds(x, y) && 0 <= k < 4 implies 0 <= channel(m.at(x, y), k)
        - #[trigger] channel(u.at(x, y), k) <= 256 by {
        lemma_byte_chan(channel(m.at(x, y), k));
    }
    let again = pack(u);
    assert forall|i: int| 0 <= i < bytes.len() implies #[trigger] again[i] == bytes[i] by {
        lemma_flat_decompose(w, h, i);
        let x = (i / 4) % w;
        let y = (i / 4) / w;
        let k = i % 4;
        lemma_byte_chan(channel(m.at(x, y), k));
        assert(channel(u.at(x, y), k) == byte_chan(chan_byte(channel(m.at(x, y), k) as int)));
    }
    assert(again =~= bytes);
}

/// Every pixel of the raster is `v`.
pub open spec fn uniform(m: Raster, v: Rgba) -> bool {
    forall|x: int, y: int| m.in_bounds(x, y) ==> #[trigger] m.at(x, y) == v
}

/// Doubling any channel of `v` stays inside `i64`.
pub open spec fn doubles_fit(v: Rgba) -> bool {
    forall|k: int| 0 <= k < 4 ==> i64::MIN / 2 <= #[trigger] channel(v, k) <= i64::MAX / 2
}

proof fn lemma_mul_white(v: Rgba)
    ensures
        spec_mul(v, Rgba::spec_white()) == v,
{
    lemma_mul_one(v.r);
    lemma_mul_one(v.g);
    lemma_mul_one(v.b);
    lemma_mul_one(v.a);
}

proof fn lemma_conv_uniform(m: Raster, v: Rgba, size: nat, op: ZipOp, x: int, y: int, n: int)
    requires
        m.wf(),
        uniform(m, v),
        m.in_bounds(x, y),
        op == ZipOp::Min || op == ZipOp::Max,
        1 <= n <= size * size,
    ensures
        conv_px(m, white_kernel(size), op, x, y, n) == v,
    decreases n,
{
    let k = white_kernel(size);
    let c = n - 1;
    assert(size > 0) by (nonlinear_arith)
        requires
            1 <= size * size,
    ;
    vstd::arithmetic::div_mod::lemma_fundamental_div_mod(c, size as int);
    vstd::arithmetic::div_mod::lemma_mod_pos_bound(c, size as int);
    let cx = c / (size as int);
    let cy = c % (size as int);
    assert(0 <= cx < size) by (nonlinear_arith)
        requires
            c == size * cx + cy,
            0 <= cy < size,
            0 <= c < size * size,
    ;
    assert(k.at(cx, cy) == Rgba::spec_white());
    let sx = clamp_coord(x + cx - (size as int) / 2, m.width as int);
    let sy = clamp_coord(y + cy - (size as int) / 2, m.height as int);
    assert(m.at(sx, sy) == v);
    lemma_mul_white(v);
    assert(kernel_term(m, k, x, y, c) == v);
    if n > 1 {
        lemma_conv_uniform(m, v, size, op, x, y, n - 1);
    }
}

/// The median approximation leaves a uniform raster unchanged (for values
/// whose double fits in `i64`).
pub proof fn lemma_median_uniform(m: Raster, v: Rgba, size: nat)
    requires
        m.wf(),
        uniform(m, v),
        doubles_fit(v),
    ensures
        spec_median(m, size) == m,
{
    let k = white_kernel(size);
    let lo = spec_convolve(m, k, ZipOp::Min);
    let hi = spec_convolve(m, k, ZipOp::Max);
    let r = spec_median(m, size);
    assert(channel(v, 0) == v.r && channel(v, 1) == v.g && channel(v, 2) == v.b && channel(v, 3) == v.a);
    assert forall|x: int, y: int| r.in_bounds(x, y) implies #[trigger] r.at(x, y) == m.at(x, y) by {
        if size > 0 {
            assert(size * size >= 1) by (nonlinear_arith)
                requires
                    size > 0,
            ;
            lemma_conv_uniform(m, v, size, ZipOp::Min, x, y, (size * size) as int);
            lemma_conv_uniform(m, v, size, ZipOp::Max, x, y, (size * size) as int);
        }
        assert(lo.at(x, y) == v);
        assert(operand_at(hi, x, y) == v);
        assert(r.at(x, y) == zip_sem(ZipOp::Mean, v, v));
    }
    lemma_raster_ext(r, m);
}

/// The pixel at `(x, y)` depends on `x + y` alone and grows strictly with it
/// (as with intensity `x + y`).
pub open spec fn rises_with_sum(m: Raster) -> bool {
    forall|x1: int, y1: int, x2: int, y2: int|
        m.in_bounds(x1, y1) && m.in_bounds(x2, y2) ==> {
            &&& (x1 + y1 == x2 + y2 ==> #[trigger] m.at(x1, y1) == #[trigger] m.at(x2, y2))
            &&& (x1 + y1 < x2 + y2 ==> spec_less(m.at(x1, y1), m.at(x2, y2)))
        }
}

/// On a raster that rises strictly with `x + y`, non-max suppression turns
/// every interior pixel black.
pub proof fn lemma_non_max_rising(m: Raster, x: int, y: int)
    requires
        m.wf(),
        rises_with_sum(m),
        0 < x < m.width - 1,
        0 < y < m.height - 1,
    ensures
        spec_non_max(m).at(x, y) == Rgba::spec_black(),
{
    let c = m.at(x, y);
    assert(spec_less(c, m.at(x + 1, y + 1)));
    assert(spec_less(c, m.at(x + 1, y)));
    assert(spec_less(c, m.at(x, y + 1)));
    assert(m.at(x - 1, y + 1) == c);
    assert(!local_max(m, x, y));
}

/// Red, green and blue are zero.
pub open spec fn colourless(p: Rgba) -> bool {
    p.r == 0 && p.g == 0 && p.b == 0
}

proof fn lemma_conv_colourless(m: Raster, k: Raster, x: int, y: int, n: int)
    requires
        forall|i: int, j: int| m.in_bounds(i, j) ==> colourless(#[trigger] m.at(i, j)),
        m.in_bounds(x, y),
        k.width > 0,
        k.height > 0,
    ensures
        colourless(conv_px(m, k, ZipOp::Add, x, y, n)),
    decreases n,
{
    let c = if n <= 1 { 0 } else { n - 1 };
    let kh = k.height as int;
    let sx = clamp_coord(x + c / kh - (k.width as int) / 2, m.width as int);
    let sy = clamp_coord(y + c % kh - (k.height as int) / 2, m.height as int);
    assert(colourless(m.at(sx, sy)));
    assert(colourless(kernel_term(m, k, x, y, c)));
    if n > 1 {
        lemma_conv_colourless(m, k, x, y, n - 1);
    }
}

/// A 3 by 3 black raster through grayscale and then gradient has no colour
/// anywhere: a constant input has zero discrete gradient.
pub proof fn lemma_black_gradient()
    ensures
        ({
            let g = spec_map(
                spec_map(black_raster(3, 3), PixelOp::Dim(Rgba::spec_grayscale_factor())),
                PixelOp::Grayscale,
            );
            let r = spec_map(spec_convolve(g, gradient_kernel(), ZipOp::Add), PixelOp::Abs);
            forall|x: int, y: int| r.in_bounds(x, y) ==> colourless(#[trigger] r.at(x, y))
        }),
{
    let g = spec_map(
        spec_map(black_raster(3, 3), PixelOp::Dim(Rgba::spec_grayscale_factor())),
        PixelOp::Grayscale,
    );
    let k = gradient_kernel();
    let c = spec_convolve(g, k, ZipOp::Add);
    let r = spec_map(c, PixelOp::Abs);
    assert forall|i: int, j: int| g.in_bounds(i, j) implies colourless(#[trigger] g.at(i, j)) by {
    }
    assert forall|x: int, y: int| r.in_bounds(x, y) implies colourless(#[trigger] r.at(x, y)) by {
        lemma_conv_colourless(g, k, x, y, 9);
    }
}

} // verus!
