use vstd::prelude::*;

use crate::rgba::{Rgba, chan_byte, byte_chan};
use vstd::arithmetic::div_mod::lemma_fundamental_div_mod_converse;

verus! {

/// The mathematical model of a raster: `cols[x][y]` is the pixel at `(x, y)`.
pub struct Raster {
    pub width: nat,
    pub height: nat,
    pub cols: Seq<Seq<Rgba>>,
}

impl Raster {
    pub open spec fn wf(self) -> bool {
        &&& self.cols.len() == self.width
        &&& forall|x: int| 0 <= x < self.width ==> #[trigger] self.cols[x].len() == self.height
    }

    pub open spec fn at(self, x: int, y: int) -> Rgba {
        self.cols[x][y]
    }

    pub open spec fn in_bounds(self, x: int, y: int) -> bool {
        0 <= x < self.width && 0 <= y < self.height
    }
}

/// The raster of the given size whose pixel at `(x, y)` is `f(x, y)`.
pub open spec fn raster_of(width: nat, height: nat, f: spec_fn(int, int) -> Rgba) -> Raster {
    Raster {
        width,
        height,
        cols: Seq::new(width, |x: int| Seq::new(height, |y: int| f(x, y))),
    }
}

/// Two well-formed rasters of one size with the same pixels are equal.
pub proof fn lemma_raster_ext(a: Raster, b: Raster)
    requires
        a.wf(),
        b.wf(),
        a.width == b.width,
        a.height == b.height,
        forall|x: int, y: int| a.in_bounds(x, y) ==> #[trigger] a.at(x, y) == b.at(x, y),
    ensures
        a == b,
{
    assert forall|x: int| 0 <= x < a.width implies #[trigger] a.cols[x] == b.cols[x] by {
        assert(a.cols[x] =~= b.cols[x]) by {
            assert forall|y: int| 0 <= y < a.height implies a.cols[x][y] == b.cols[x][y] by {
                assert(a.at(x, y) == b.at(x, y));
            }
        }
    }
    assert(a.cols =~= b.cols);
}

/// Channel `k` of a pixel, in the order red, green, blue, alpha.
pub open spec fn channel(p: Rgba, k: int) -> i64 {
    if k == 0 {
        p.r
    } else if k == 1 {
        p.g
    } else if k == 2 {
        p.b
    } else {
        p.a
    }
}

/// Byte `i` of the flat buffer of a raster: four bytes per pixel, rows of
/// pixels one after another from the top.
pub open spec fn packed_byte(m: Raster, i: int) -> u8 {
    chan_byte(channel(m.at((i / 4) % (m.width as int), (i / 4) / (m.width as int)), i % 4) as int)
}

/// The position of channel `k` of pixel `(x, y)` in the flat buffer.
pub open spec fn flat_index(width: int, x: int, y: int, k: int) -> int {
    4 * (y * width + x) + k
}

/// Where a flat index falls: its pixel and channel.
pub proof fn lemma_flat_index(w: int, h: int, x: int, y: int, k: int)
    requires
        0 <= x < w,
        0 <= y < h,
        0 <= k < 4,
    ensures
        0 <= flat_index(w, x, y, k) < 4 * w * h,
        flat_index(w, x, y, k) % 4 == k,
        (flat_index(w, x, y, k) / 4) % w == x,
        (flat_index(w, x, y, k) / 4) / w == y,
{
    let i = flat_index(w, x, y, k);
    let p = y * w + x;
    assert(0 <= p < h * w) by (nonlinear_arith)
        requires
            0 <= x < w,
            0 <= y < h,
            p == y * w + x,
    {
        assert(y * w + x < y * w + w);
        assert(y * w + w == (y + 1) * w);
        assert((y + 1) * w <= h * w);
    }
    assert(4 * w * h == 4 * (h * w)) by (nonlinear_arith);
    lemma_fundamental_div_mod_converse(i, 4, p, k);
    lemma_fundamental_div_mod_converse(p, w, y, x);
}

/// The flat buffer of a raster.
pub open spec fn pack(m: Raster) -> Seq<u8> {
    Seq::new(4 * m.width * m.height, |i: int| packed_byte(m, i))
}

/// The raster of the given size read from a flat buffer.
pub open spec fn unpack(width: nat, height: nat, bytes: Seq<u8>) -> Raster {
    raster_of(
        width,
        height,
        |x: int, y: int|
            Rgba {
                r: byte_chan(bytes[flat_index(width as int, x, y, 0)]),
                g: byte_chan(bytes[flat_index(width as int, x, y, 1)]),
                b: byte_chan(bytes[flat_index(width as int, x, y, 2)]),
                a: byte_chan(bytes[flat_index(width as int, x, y, 3)]),
            },
    )
}

/// Every flat index names one channel of one pixel.
pub proof fn lemma_flat_decompose(w: int, h: int, i: int)
    requires
        0 <= i < 4 * w * h,
        w > 0,
    ensures
        0 <= (i / 4) % w < w,
        0 <= (i / 4) / w < h,
        0 <= i % 4 < 4,
        flat_index(w, (i / 4) % w, (i / 4) / w, i % 4) == i,
{
    let p = i / 4;
    vstd::arithmetic::div_mod::lemma_fundamental_div_mod(i, 4);
    vstd::arithmetic::div_mod::lemma_fundamental_div_mod(p, w);
    vstd::arithmetic::div_mod::lemma_mod_pos_bound(i, 4);
    vstd::arithmetic::div_mod::lemma_mod_pos_bound(p, w);
    assert(p < w * h) by (nonlinear_arith)
        requires
            i == 4 * p + i % 4,
            0 <= i % 4,
            i < 4 * w * h,
    ;
    assert(0 <= p / w < h) by (nonlinear_arith)
        requires
            p == w * (p / w) + p % w,
            0 <= p % w < w,
            0 <= p < w * h,
            w > 0,
    ;
    assert(flat_index(w, p % w, p / w, i % 4) == 4 * ((p / w) * w + p % w) + i % 4);
    assert((p / w) * w == w * (p / w)) by (nonlinear_arith);
}

/// A dense grid of pixels whose dimensions never change after construction.
pub struct Image {
    width: usize,
    height: usize,
    cols: Vec<Vec<Rgba>>,
}

impl Image {
    #[verifier::type_invariant]
    spec fn shape(&self) -> bool {
        &&& self.cols@.len() == self.width
        &&& forall|x: int| 0 <= x < self.width ==> #[trigger] self.cols@[x]@.len() == self.height
    }
}

impl View for Image {
    type V = Raster;

    closed spec fn view(&self) -> Raster {
        Raster {
            width: self.width as nat,
            height: self.height as nat,
            cols: self.cols@.map_values(|c: Vec<Rgba>| c@),
        }
    }
}

impl Image {
    /// Builds a raster by evaluating `f(x, y)` once for every coordinate.
    pub fn construct<F: Fn(usize, usize) -> Rgba>(width: usize, height: usize, f: F) -> (r: Image)
        requires
            forall|x: usize, y: usize| x < width && y < height ==> #[trigger] f.requires((x, y)),
        ensures
            r@.wf(),
            r@.width == width,
            r@.height == height,
            forall|x: usize, y: usize|
                x < width && y < height ==> #[trigger] f.ensures((x, y), r@.at(x as int, y as int)),
    {
        let mut cols: Vec<Vec<Rgba>> = Vec::new();
        let mut x: usize = 0;
        while x < width
            invariant
                x <= width,
                cols@.len() == x,
                forall|x: usize, y: usize| x < width && y < height ==> #[trigger] f.requires((x, y)),
                forall|i: int| 0 <= i < x ==> #[trigger] cols@[i]@.len() == height,
                forall|i: int, y: usize|
                    0 <= i < x && y < height ==> #[trigger] f.ensures((i as usize, y), cols@[i]@[y as int]),
            decreases width - x,
        {
            let mut col: Vec<Rgba> = Vec::new();
            let mut y: usize = 0;
            while y < height
                invariant
                    x < width,
                    y <= height,
                    col@.len() == y,
                    forall|x: usize, y: usize| x < width && y < height ==> #[trigger] f.requires((x, y)),
                    forall|j: usize| j < y ==> #[trigger] f.ensures((x, j), col@[j as int]),
                decreases height - y,
            {
                let p = f(x, y);
                col.push(p);
                y = y + 1;
            }
            cols.push(col);
            x = x + 1;
        }
        let r = Image { width, height, cols };
        assert forall|x: usize, y: usize| x < width && y < height implies #[trigger] f.ensures(
            (x, y),
            r@.at(x as int, y as int),
        ) by {
            assert(f.ensures((x as int as usize, y), cols@[x as int]@[y as int]));
        }
        r
    }

    /// A raster of the given size filled with one pixel.
    pub fn from_pixel(width: usize, height: usize, pixel: Rgba) -> (r: Image)
        ensures
            r@.wf(),
            r@.width == width,
            r@.height == height,
            forall|x: int, y: int| r@.in_bounds(x, y) ==> #[trigger] r@.at(x, y) == pixel,
    {
        let f = move |x: usize, y: usize| -> (p: Rgba)
            ensures
                p == pixel,
            { pixel };
        let r = Image::construct(width, height, f);
        assert forall|x: int, y: int| r@.in_bounds(x, y) implies #[trigger] r@.at(x, y) == pixel by {
            assert(f.ensures((x as usize, y as usize), r@.at(x, y)));
        }
        r
    }

    /// An all-black raster of the given size.
    pub fn empty(width: usize, height: usize) -> (r: Image)
        ensures
            r@.wf(),
            r@.width == width,
            r@.height == height,
            forall|x: int, y: int| r@.in_bounds(x, y) ==> #[trigger] r@.at(x, y) == Rgba::spec_black(),
    {
        Image::from_pixel(width, height, Rgba::black())
    }

    /// An all-black raster of the given size.
    pub fn black(width: usize, height: usize) -> (r: Image)
        ensures
            r@.wf(),
            r@.width == width,
            r@.height == height,
            forall|x: int, y: int| r@.in_bounds(x, y) ==> #[trigger] r@.at(x, y) == Rgba::spec_black(),
    {
        Image::empty(width, height)
    }

    /// The width; every image is well formed.
    pub fn width(&self) -> (w: usize)
        ensures
            w == self@.width,
            self@.wf(),
    {
        proof {
            use_type_invariant(self);
        }
        self.width
    }

    pub fn height(&self) -> (h: usize)
        ensures
            h == self@.height,
            self@.wf(),
    {
        proof {
            use_type_invariant(self);
        }
        self.height
    }

    /// The pixel at `(x, y)`.
    pub fn index(&self, x: usize, y: usize) -> (p: Rgba)
        requires
            self@.in_bounds(x as int, y as int),
        ensures
            p == self@.at(x as int, y as int),
    {
        proof {
            use_type_invariant(self);
        }
        assert(self.cols@.len() == self@.cols.len());
        assert(self@.cols[x as int] == self.cols@[x as int]@);
        assert(self.cols@.len() == self@.cols.len());
        assert(self@.cols[x as int] == self.cols@[x as int]@);
        self.cols[x][y]
    }

    /// A raster of this one's size with content from `f`.
    pub fn similar<F: Fn(usize, usize) -> Rgba>(&self, f: F) -> (r: Image)
        requires
            forall|x: usize, y: usize| x < self@.width && y < self@.height ==> #[trigger] f.requires((x, y)),
        ensures
            r@.wf(),
            r@.width == self@.width,
            r@.height == self@.height,
            forall|x: usize, y: usize|
                x < self@.width && y < self@.height ==> #[trigger] f.ensures((x, y), r@.at(x as int, y as int)),
    {
        Image::construct(self.width, self.height, f)
    }

    /// The flat buffer of this raster: for each pixel, row after row from the
    /// top, its red, green, blue and alpha bytes.
    pub fn into_rgba8(self) -> (bytes: Vec<u8>)
        ensures
            bytes@ == pack(self@),
    {
        proof {
            use_type_invariant(&self);
        }
        let ghost m = self@;
        let w = self.width;
        let h = self.height;
        let mut out: Vec<u8> = Vec::new();
        let mut y: usize = 0;
        while y < h
            invariant
                self@ == m,
                m.wf(),
                w == m.width,
                h == m.height,
                y <= h,
                out@.len() == 4 * (y * w),
                forall|i: int| 0 <= i < out@.len() ==> #[trigger] out@[i] == packed_byte(m, i),
            decreases h - y,
        {
            let mut x: usize = 0;
            while x < w
                invariant
                    self@ == m,
                    m.wf(),
                    w == m.width,
                    h == m.height,
                    y < h,
                    x <= w,
                    out@.len() == 4 * (y * w + x),
                    forall|i: int| 0 <= i < out@.len() ==> #[trigger] out@[i] == packed_byte(m, i),
                decreases w - x,
            {
                let bytes = self.index(x, y).to_bytes();
                proof {
                    lemma_flat_index(w as int, h as int, x as int, y as int, 0);
                    lemma_flat_index(w as int, h as int, x as int, y as int, 1);
                    lemma_flat_index(w as int, h as int, x as int, y as int, 2);
                    lemma_flat_index(w as int, h as int, x as int, y as int, 3);
                }
                out.push(bytes[0]);
                out.push(bytes[1]);
                out.push(bytes[2]);
                out.push(bytes[3]);
                x = x + 1;
            }
            assert(4 * (y * w + w) == 4 * ((y + 1) * w)) by (nonlinear_arith);
            y = y + 1;
        }
        assert(4 * (h * w) == 4 * w * h) by (nonlinear_arith);
        assert(out@ =~= pack(m));
        out
    }

    /// A raster from a flat buffer laid out as `into_rgba8` writes it; each
    /// channel is `byte / 256`.
    pub fn from_rgba8(width: usize, height: usize, bytes: &Vec<u8>) -> (r: Image)
        requires
            bytes@.len() == 4 * width * height,
        ensures
            r@ == unpack(width as nat, height as nat, bytes@),
    {
        let f = |x: usize, y: usize| -> (p: Rgba)
            requires
                x < width,
                y < height,
                bytes@.len() == 4 * width * height,
            ensures
                p == (Rgba {
                    r: byte_chan(bytes@[flat_index(width as int, x as int, y as int, 0)]),
                    g: byte_chan(bytes@[flat_index(width as int, x as int, y as int, 1)]),
                    b: byte_chan(bytes@[flat_index(width as int, x as int, y as int, 2)]),
                    a: byte_chan(bytes@[flat_index(width as int, x as int, y as int, 3)]),
                }),
            {
                let n = bytes.len();
                proof {
                    lemma_flat_index(width as int, height as int, x as int, y as int, 3);
                    assert(flat_index(width as int, x as int, y as int, 3) < n);
                    assert(0 <= y * width <= y * width + x) by (nonlinear_arith)
                        requires
                            0 <= x,
                            0 <= y,
                            0 <= width,
                    ;
                }
                let i = 4 * (y * width + x);
                Rgba::from_bytes([bytes[i], bytes[i + 1], bytes[i + 2], bytes[i + 3]])
            };
        let r = Image::construct(width, height, f);
        assert forall|x: int, y: int| #![trigger r@.at(x, y)] r@.in_bounds(x, y) implies r@.at(x, y) == (Rgba {
            r: byte_chan(bytes@[flat_index(width as int, x, y, 0)]),
            g: byte_chan(bytes@[flat_index(width as int, x, y, 1)]),
            b: byte_chan(bytes@[flat_index(width as int, x, y, 2)]),
            a: byte_chan(bytes@[flat_index(width as int, x, y, 3)]),
        }) by {
            assert(f.ensures((x as usize, y as usize), r@.at(x, y)));
        }
        proof {
            let u = unpack(width as nat, height as nat, bytes@);
            lemma_raster_ext(r@, u);
        }
        proof {
            let u = unpack(width as nat, height as nat, bytes@);
            lemma_raster_ext(r@, u);
        }
        r
    }
}

} // verus!
