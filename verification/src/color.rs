//! Colours, perceptual luminance and the colour metric.

use vstd::prelude::*;

verus! {

/// An RGB colour with eight bits per channel.
#[derive(Clone, Copy, Debug, PartialEq, Eq, Structural)]
pub struct Color {
    pub r: u8,
    pub g: u8,
    pub b: u8,
}

pub open spec fn black() -> Color {
    Color { r: 0, g: 0, b: 0 }
}

pub open spec fn white() -> Color {
    Color { r: 255, g: 255, b: 255 }
}

impl Color {
    pub fn black() -> (c: Color)
        ensures
            c == black(),
    {
        Color { r: 0, g: 0, b: 0 }
    }

    pub fn white() -> (c: Color)
        ensures
            c == white(),
    {
        Color { r: 255, g: 255, b: 255 }
    }
}

/// Perceptual brightness of a colour: the BT.709 weighted sum
/// `0.2126 R + 0.7152 G + 0.0722 B`, rounded toward zero.
pub open spec fn luminance(c: Color) -> int {
    (2126 * c.r + 7152 * c.g + 722 * c.b) / 10000
}

/// The grey of the same brightness as `c`.
pub open spec fn grey_of(c: Color) -> Color {
    let l = luminance(c) as u8;
    Color { r: l, g: l, b: l }
}

/// Brightness never leaves the range of a channel, and a grey has its own
/// level as brightness.
pub proof fn lemma_luminance_range(c: Color)
    ensures
        0 <= luminance(c) <= 255,
        c.r == c.g && c.g == c.b ==> luminance(c) == c.r,
{
}

/// Brightness of `pixel` on the scale 0 to 255.
pub fn luminosite(pixel: &Color) -> (lum: u8)
    ensures
        lum == luminance(*pixel),
{
    let sum: u32 = 2126 * (pixel.r as u32) + 7152 * (pixel.g as u32) + 722 * (pixel.b as u32);
    (sum / 10000) as u8
}

/// The colour metric: the sum of the squared differences of the channels,
/// that is the square of the Euclidean distance in RGB space.
pub open spec fn squared_distance(a: Color, b: Color) -> int {
    (a.r - b.r) * (a.r - b.r) + (a.g - b.g) * (a.g - b.g) + (a.b - b.b) * (a.b - b.b)
}

/// A square of a difference of two channels is at most `255 * 255`.
proof fn lemma_square_bound(d: int, m: int)
    requires
        -m <= d <= m,
    ensures
        0 <= d * d <= m * m,
{
    assert(0 <= d * d <= m * m) by (nonlinear_arith)
        requires
            -m <= d <= m,
    ;
}

/// The metric is symmetric, never negative, and zero only between equal
/// colours.
pub proof fn lemma_squared_distance(a: Color, b: Color)
    ensures
        squared_distance(a, b) == squared_distance(b, a),
        0 <= squared_distance(a, b) <= 3 * 255 * 255,
        squared_distance(a, b) == 0 <==> a == b,
{
    let dr = a.r - b.r;
    let dg = a.g - b.g;
    let db = a.b - b.b;
    lemma_square_bound(dr, 255);
    lemma_square_bound(dg, 255);
    lemma_square_bound(db, 255);
    assert((b.r - a.r) * (b.r - a.r) == dr * dr) by (nonlinear_arith)
        requires
            dr == a.r - b.r,
    ;
    assert((b.g - a.g) * (b.g - a.g) == dg * dg) by (nonlinear_arith)
        requires
            dg == a.g - b.g,
    ;
    assert((b.b - a.b) * (b.b - a.b) == db * db) by (nonlinear_arith)
        requires
            db == a.b - b.b,
    ;
    assert(dr * dr == 0 ==> dr == 0) by (nonlinear_arith);
    assert(dg * dg == 0 ==> dg == 0) by (nonlinear_arith);
    assert(db * db == 0 ==> db == 0) by (nonlinear_arith);
}

/// Distance between two colours under the colour metric.
pub fn distance_euclidienne(c1: Color, c2: Color) -> (d: u32)
    ensures
        d == squared_distance(c1, c2),
{
    let dr: i32 = c1.r as i32 - c2.r as i32;
    let dg: i32 = c1.g as i32 - c2.g as i32;
    let db: i32 = c1.b as i32 - c2.b as i32;
    proof {
        lemma_square_bound(dr as int, 255);
        lemma_square_bound(dg as int, 255);
        lemma_square_bound(db as int, 255);
    }
    (dr * dr + dg * dg + db * db) as u32
}

} // verus!
