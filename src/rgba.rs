use vstd::prelude::*;

verus! {

/// Fixed-point scale: a channel value `v` stands for the real number `v / 65536`.
pub const ONE: i64 = 65536;

/// A four-channel colour value in fixed point (see `ONE`).
///
/// Channels may leave [0, 1] during intermediate arithmetic; every operation
/// saturates at the bounds of `i64` instead of overflowing.
#[derive(Clone, Copy, Debug, PartialEq, Eq, Structural)]
pub struct Rgba {
    pub r: i64,
    pub g: i64,
    pub b: i64,
    pub a: i64,
}

/// Clamps an integer into the range of `i64`.
pub open spec fn sat(v: int) -> i64 {
    if v < i64::MIN {
        i64::MIN
    } else if v > i64::MAX {
        i64::MAX
    } else {
        v as i64
    }
}

/// Division rounding toward zero.
pub open spec fn tdiv(n: int, d: int) -> int {
    if n >= 0 {
        n / d
    } else {
        -((-n) / d)
    }
}

/// Fixed-point product of two channel values.
pub open spec fn chan_mul(x: int, y: int) -> i64 {
    sat(tdiv(x * y, ONE as int))
}

/// The 8-bit value of a channel: clamped to [0, 1], scaled by 256, truncated,
/// and saturated at 255.
pub open spec fn chan_byte(c: int) -> u8 {
    if c <= 0 {
        0u8
    } else if c >= 255 * 256 {
        255u8
    } else {
        (c / 256) as u8
    }
}

/// The channel value of a byte: `byte / 256`.
pub open spec fn byte_chan(b: u8) -> i64 {
    (b as int * 256) as i64
}

pub open spec fn rgba(r: int, g: int, b: int, a: int) -> Rgba {
    Rgba { r: r as i64, g: g as i64, b: b as i64, a: a as i64 }
}

pub open spec fn spec_add(p: Rgba, q: Rgba) -> Rgba {
    Rgba { r: sat(p.r + q.r), g: sat(p.g + q.g), b: sat(p.b + q.b), a: sat(p.a + q.a) }
}

pub open spec fn spec_sub(p: Rgba, q: Rgba) -> Rgba {
    Rgba { r: sat(p.r - q.r), g: sat(p.g - q.g), b: sat(p.b - q.b), a: sat(p.a - q.a) }
}

pub open spec fn spec_mul(p: Rgba, q: Rgba) -> Rgba {
    Rgba {
        r: chan_mul(p.r as int, q.r as int),
        g: chan_mul(p.g as int, q.g as int),
        b: chan_mul(p.b as int, q.b as int),
        a: chan_mul(p.a as int, q.a as int),
    }
}

pub open spec fn spec_div(p: Rgba, n: int) -> Rgba {
    Rgba {
        r: sat(tdiv(p.r as int, n)),
        g: sat(tdiv(p.g as int, n)),
        b: sat(tdiv(p.b as int, n)),
        a: sat(tdiv(p.a as int, n)),
    }
}

pub open spec fn min_i(x: i64, y: i64) -> i64 {
    if x <= y { x } else { y }
}

pub open spec fn max_i(x: i64, y: i64) -> i64 {
    if x >= y { x } else { y }
}

pub open spec fn abs_i(x: i64) -> i64 {
    sat(if x < 0 { -(x as int) } else { x as int })
}

pub open spec fn spec_min(p: Rgba, q: Rgba) -> Rgba {
    Rgba { r: min_i(p.r, q.r), g: min_i(p.g, q.g), b: min_i(p.b, q.b), a: min_i(p.a, q.a) }
}

pub open spec fn spec_max(p: Rgba, q: Rgba) -> Rgba {
    Rgba { r: max_i(p.r, q.r), g: max_i(p.g, q.g), b: max_i(p.b, q.b), a: max_i(p.a, q.a) }
}

pub open spec fn spec_abs(p: Rgba) -> Rgba {
    Rgba { r: abs_i(p.r), g: abs_i(p.g), b: abs_i(p.b), a: abs_i(p.a) }
}

pub open spec fn spec_gray(v: i64) -> Rgba {
    Rgba { r: v, g: v, b: v, a: ONE }
}

/// Luminance weights 0.3, 0.59 and 0.11 for red, green and blue; alpha is kept.
pub open spec fn grayscale_factor() -> Rgba {
    Rgba { r: 19660, g: 38666, b: 7208, a: ONE }
}

/// Multiply by the luminance weights, then set red, green and blue to the
/// plain average of the weighted three; alpha is the weighted alpha.
pub open spec fn spec_grayscale(p: Rgba) -> Rgba {
    let w = spec_mul(p, grayscale_factor());
    Rgba {
        r: sat(tdiv(w.r + w.g + w.b, 3)),
        g: sat(tdiv(w.r + w.g + w.b, 3)),
        b: sat(tdiv(w.r + w.g + w.b, 3)),
        a: w.a,
    }
}

/// `p < q`: lexicographic over the channels in the order red, blue, green, alpha.
pub open spec fn spec_less(p: Rgba, q: Rgba) -> bool {
    if p.r != q.r {
        p.r < q.r
    } else if p.b != q.b {
        p.b < q.b
    } else if p.g != q.g {
        p.g < q.g
    } else {
        p.a < q.a
    }
}

fn sat_i128(v: i128) -> (r: i64)
    ensures
        r == sat(v as int),
{
    if v < i64::MIN as i128 {
        i64::MIN
    } else if v > i64::MAX as i128 {
        i64::MAX
    } else {
        v as i64
    }
}

fn tdiv_i128(n: i128, d: i128) -> (r: i128)
    requires
        d > 0,
        n > i128::MIN,
    ensures
        r == tdiv(n as int, d as int),
{
    if n >= 0 {
        n / d
    } else {
        -((-n) / d)
    }
}

fn mul_chan(x: i64, y: i64) -> (r: i64)
    ensures
        r == chan_mul(x as int, y as int),
{
    let xi = x as i128;
    let yi = y as i128;
    let ghost lim: int = 0x8000_0000_0000_0000;
    assert(-(lim * lim) <= xi * yi <= lim * lim) by (nonlinear_arith)
        requires
            -lim <= xi <= lim,
            -lim <= yi <= lim,
    {
        if xi >= 0 && yi >= 0 {
            assert(xi * yi <= xi * lim);
            assert(xi * lim <= lim * lim);
        } else if xi < 0 && yi < 0 {
            assert(xi * yi == (-xi) * (-yi));
            assert((-xi) * (-yi) <= (-xi) * lim);
            assert((-xi) * lim <= lim * lim);
        } else if xi < 0 {
            assert(xi * yi == -((-xi) * yi));
            assert((-xi) * yi <= (-xi) * lim);
            assert((-xi) * lim <= lim * lim);
        } else {
            assert(xi * yi == -(xi * (-yi)));
            assert(xi * (-yi) <= xi * lim);
            assert(xi * lim <= lim * lim);
        }
    }
    sat_i128(tdiv_i128(xi * yi, ONE as i128))
}

fn min_chan(x: i64, y: i64) -> (r: i64)
    ensures
        r == min_i(x, y),
{
    if x <= y { x } else { y }
}

fn max_chan(x: i64, y: i64) -> (r: i64)
    ensures
        r == max_i(x, y),
{
    if x >= y { x } else { y }
}

fn abs_chan(x: i64) -> (r: i64)
    ensures
        r == abs_i(x),
{
    if x < 0 {
        sat_i128(-(x as i128))
    } else {
        x
    }
}

fn byte_of(c: i64) -> (r: u8)
    ensures
        r == chan_byte(c as int),
{
    if c <= 0 {
        0
    } else if c >= 255 * 256 {
        255
    } else {
        (c / 256) as u8
    }
}

impl Rgba {
    pub open spec fn spec_black() -> Rgba {
        Rgba { r: 0, g: 0, b: 0, a: ONE }
    }

    pub open spec fn spec_white() -> Rgba {
        Rgba { r: ONE, g: ONE, b: ONE, a: ONE }
    }

    pub fn black() -> (p: Rgba)
        ensures
            p == (Rgba { r: 0, g: 0, b: 0, a: ONE }),
    {
        Rgba { r: 0, g: 0, b: 0, a: ONE }
    }

    pub fn red() -> (p: Rgba)
        ensures
            p == (Rgba { r: ONE, g: 0, b: 0, a: ONE }),
    {
        Rgba { r: ONE, g: 0, b: 0, a: ONE }
    }

    pub fn violet() -> (p: Rgba)
        ensures
            p == (Rgba { r: ONE, g: 0, b: ONE, a: ONE }),
    {
        Rgba { r: ONE, g: 0, b: ONE, a: ONE }
    }

    pub fn blue() -> (p: Rgba)
        ensures
            p == (Rgba { r: 0, g: 0, b: ONE, a: ONE }),
    {
        Rgba { r: 0, g: 0, b: ONE, a: ONE }
    }

    pub fn cyan() -> (p: Rgba)
        ensures
            p == (Rgba { r: 0, g: ONE, b: ONE, a: ONE }),
    {
        Rgba { r: 0, g: ONE, b: ONE, a: ONE }
    }

    pub fn green() -> (p: Rgba)
        ensures
            p == (Rgba { r: 0, g: ONE, b: 0, a: ONE }),
    {
        Rgba { r: 0, g: ONE, b: 0, a: ONE }
    }

    pub fn yellow() -> (p: Rgba)
        ensures
            p == (Rgba { r: ONE, g: ONE, b: 0, a: ONE }),
    {
        Rgba { r: ONE, g: ONE, b: 0, a: ONE }
    }

    pub fn white() -> (p: Rgba)
        ensures
            p == (Rgba { r: ONE, g: ONE, b: ONE, a: ONE }),
    {
        Rgba { r: ONE, g: ONE, b: ONE, a: ONE }
    }

    /// Luminance weights 0.3, 0.59 and 0.11 for red, green and blue.
    pub open spec fn spec_grayscale_factor() -> Rgba {
        grayscale_factor()
    }

    pub fn grayscale_factor() -> (p: Rgba)
        ensures
            p == (Rgba { r: 19660, g: 38666, b: 7208, a: ONE }),
    {
        Rgba { r: 19660, g: 38666, b: 7208, a: ONE }
    }

    pub fn new(r: i64, g: i64, b: i64, a: i64) -> (p: Rgba)
        ensures
            p == (Rgba { r, g, b, a }),
    {
        Rgba { r, g, b, a }
    }

    /// An opaque gray of the given intensity.
    pub fn gray(value: i64) -> (p: Rgba)
        ensures
            p == spec_gray(value),
    {
        Rgba { r: value, g: value, b: value, a: ONE }
    }

    pub fn with_alpha(self, alpha: i64) -> (p: Rgba)
        ensures
            p == (Rgba { a: alpha, ..self }),
    {
        Rgba { a: alpha, ..self }
    }

    pub fn a(&self) -> (v: &i64)
        ensures
            *v == self.a,
    {
        &self.a
    }

    pub fn alpha(&self) -> (v: i64)
        ensures
            v == self.a,
    {
        self.a
    }

    /// Applies `f` to each channel.
    pub fn map<F: Fn(i64) -> i64>(self, f: F) -> (p: Rgba)
        requires
            forall|v: i64| f.requires((v,)),
        ensures
            f.ensures((self.r,), p.r),
            f.ensures((self.g,), p.g),
            f.ensures((self.b,), p.b),
            f.ensures((self.a,), p.a),
    {
        Rgba { r: f(self.r), g: f(self.g), b: f(self.b), a: f(self.a) }
    }

    pub fn min(self, other: Rgba) -> (p: Rgba)
        ensures
            p == spec_min(self, other),
    {
        Rgba {
            r: min_chan(self.r, other.r),
            g: min_chan(self.g, other.g),
            b: min_chan(self.b, other.b),
            a: min_chan(self.a, other.a),
        }
    }

    pub fn max(self, other: Rgba) -> (p: Rgba)
        ensures
            p == spec_max(self, other),
    {
        Rgba {
            r: max_chan(self.r, other.r),
            g: max_chan(self.g, other.g),
            b: max_chan(self.b, other.b),
            a: max_chan(self.a, other.a),
        }
    }

    pub fn add(self, other: Rgba) -> (p: Rgba)
        ensures
            p == spec_add(self, other),
    {
        Rgba {
            r: sat_i128(self.r as i128 + other.r as i128),
            g: sat_i128(self.g as i128 + other.g as i128),
            b: sat_i128(self.b as i128 + other.b as i128),
            a: sat_i128(self.a as i128 + other.a as i128),
        }
    }

    pub fn sub(self, other: Rgba) -> (p: Rgba)
        ensures
            p == spec_sub(self, other),
    {
        Rgba {
            r: sat_i128(self.r as i128 - other.r as i128),
            g: sat_i128(self.g as i128 - other.g as i128),
            b: sat_i128(self.b as i128 - other.b as i128),
            a: sat_i128(self.a as i128 - other.a as i128),
        }
    }

    pub fn mul(self, other: Rgba) -> (p: Rgba)
        ensures
            p == spec_mul(self, other),
    {
        Rgba {
            r: mul_chan(self.r, other.r),
            g: mul_chan(self.g, other.g),
            b: mul_chan(self.b, other.b),
            a: mul_chan(self.a, other.a),
        }
    }

    /// Divides each channel by a positive integer, rounding toward zero.
    pub fn div(self, n: i64) -> (p: Rgba)
        requires
            n > 0,
        ensures
            p == spec_div(self, n as int),
    {
        Rgba {
            r: sat_i128(tdiv_i128(self.r as i128, n as i128)),
            g: sat_i128(tdiv_i128(self.g as i128, n as i128)),
            b: sat_i128(tdiv_i128(self.b as i128, n as i128)),
            a: sat_i128(tdiv_i128(self.a as i128, n as i128)),
        }
    }

    pub fn abs(self) -> (p: Rgba)
        ensures
            p == spec_abs(self),
    {
        Rgba { r: abs_chan(self.r), g: abs_chan(self.g), b: abs_chan(self.b), a: abs_chan(self.a) }
    }

    pub fn grayscale(self) -> (p: Rgba)
        ensures
            p == spec_grayscale(self),
    {
        let w = self.mul(Rgba::grayscale_factor());
        let v = sat_i128(tdiv_i128(w.r as i128 + w.g as i128 + w.b as i128, 3));
        Rgba { r: v, g: v, b: v, a: w.a }
    }

    /// Lexicographic order over red, blue, green, alpha.
    pub fn less_than(&self, other: &Rgba) -> (r: bool)
        ensures
            r == spec_less(*self, *other),
    {
        if self.r != other.r {
            self.r < other.r
        } else if self.b != other.b {
            self.b < other.b
        } else if self.g != other.g {
            self.g < other.g
        } else {
            self.a < other.a
        }
    }

    /// A pixel from four bytes red, green, blue, alpha: each channel is `byte / 256`.
    pub fn from_bytes(bytes: [u8; 4]) -> (p: Rgba)
        ensures
            p == (Rgba {
                r: byte_chan(bytes@[0]),
                g: byte_chan(bytes@[1]),
                b: byte_chan(bytes@[2]),
                a: byte_chan(bytes@[3]),
            }),
    {
        Rgba {
            r: bytes[0] as i64 * 256,
            g: bytes[1] as i64 * 256,
            b: bytes[2] as i64 * 256,
            a: bytes[3] as i64 * 256,
        }
    }

    /// The four bytes red, green, blue, alpha of this pixel.
    pub fn to_bytes(self) -> (bytes: [u8; 4])
        ensures
            bytes@ == seq![
                chan_byte(self.r as int),
                chan_byte(self.g as int),
                chan_byte(self.b as int),
                chan_byte(self.a as int),
            ],
    {
        [byte_of(self.r), byte_of(self.g), byte_of(self.b), byte_of(self.a)]
    }
}

} // verus!
