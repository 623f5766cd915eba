//! Channel levels in fixed point: the arithmetic in which quantisation error
//! is carried from pixel to pixel.
//!
//! A level counts units of 1/65536 of one step of a colour channel, so that a
//! channel value `v` is the level `65536 * v`. Sixteen binary places keep a
//! corrected channel as finely as a single-precision float keeps a number
//! between 128 and 256.

use vstd::prelude::*;
use crate::color::{squared_distance, Color};
use crate::palette::{
    color_distances, first_min, first_min_upto, is_first_min, lemma_first_min, nearest_color,
    Palette,
};

verus! {

/// Units of level in one step of a colour channel.
pub const SCALE: i64 = 65536;

/// The level of a full channel, `255 * SCALE`.
pub const FULL: i64 = 16711680;

/// Three levels, one for each channel.
pub struct Triple {
    pub r: int,
    pub g: int,
    pub b: int,
}

impl Triple {
    pub open spec fn zero() -> Triple {
        Triple { r: 0, g: 0, b: 0 }
    }

    pub open spec fn add(self, other: Triple) -> Triple {
        Triple { r: self.r + other.r, g: self.g + other.g, b: self.b + other.b }
    }

    pub open spec fn sub(self, other: Triple) -> Triple {
        Triple { r: self.r - other.r, g: self.g - other.g, b: self.b - other.b }
    }

    /// Whether no channel is further from zero than `m`.
    pub open spec fn within(self, m: int) -> bool {
        -m <= self.r <= m && -m <= self.g <= m && -m <= self.b <= m
    }

    /// Whether each channel is the level of some colour between black and
    /// full.
    pub open spec fn in_gamut(self) -> bool {
        0 <= self.r <= FULL && 0 <= self.g <= FULL && 0 <= self.b <= FULL
    }
}

/// Three levels as the machine holds them.
#[derive(Clone, Copy, Debug)]
pub struct Accum {
    pub r: i64,
    pub g: i64,
    pub b: i64,
}

impl View for Accum {
    type V = Triple;

    open spec fn view(&self) -> Triple {
        Triple { r: self.r as int, g: self.g as int, b: self.b as int }
    }
}

/// The levels of a colour.
pub open spec fn levels(c: Color) -> Triple {
    Triple { r: SCALE * c.r, g: SCALE * c.g, b: SCALE * c.b }
}

/// A level brought back between black and full.
pub open spec fn clamp_level(v: int) -> int {
    if v < 0 {
        0
    } else if v > FULL {
        FULL as int
    } else {
        v
    }
}

/// The colour of a pixel with the error it has received, each channel
/// brought back between black and full.
pub open spec fn corrected_levels(c: Color, incoming: Triple) -> Triple {
    Triple {
        r: clamp_level(SCALE * c.r + incoming.r),
        g: clamp_level(SCALE * c.g + incoming.g),
        b: clamp_level(SCALE * c.b + incoming.b),
    }
}

/// The colour metric between three levels and a colour: the sum of the
/// squared differences of the channels, in units of level.
pub open spec fn level_distance(t: Triple, c: Color) -> int {
    (SCALE * c.r - t.r) * (SCALE * c.r - t.r) + (SCALE * c.g - t.g) * (SCALE * c.g - t.g) + (SCALE
        * c.b - t.b) * (SCALE * c.b - t.b)
}

/// Distance from `t` to each entry of a palette, in palette order.
pub open spec fn level_distances(t: Triple, palette: Seq<Color>) -> Seq<int> {
    Seq::new(palette.len(), |i: int| level_distance(t, palette[i]))
}

/// The entry of `palette` nearest to the levels `t`; of several equally
/// near, the first.
pub open spec fn nearest_to_levels(t: Triple, palette: Seq<Color>) -> Color {
    palette[first_min(level_distances(t, palette))]
}

/// The quantisation error of the levels `t`: what separates them from the
/// palette entry chosen for them.
pub open spec fn residual_of(t: Triple, palette: Seq<Color>) -> Triple {
    t.sub(levels(nearest_to_levels(t, palette)))
}

/// The entry chosen for any levels is an entry of the palette, and nearer
/// than any entry before it, and no further than any other.
pub proof fn lemma_nearest_to_levels(t: Triple, palette: Seq<Color>)
    requires
        palette.len() > 0,
    ensures
        is_first_min(level_distances(t, palette), first_min(level_distances(t, palette))),
        palette.contains(nearest_to_levels(t, palette)),
{
    lemma_first_min(level_distances(t, palette));
}

/// A pixel that has received no error is quantised to its nearest colour
/// under the colour metric.
pub proof fn lemma_exact_levels_nearest(c: Color, palette: Seq<Color>)
    requires
        palette.len() > 0,
    ensures
        corrected_levels(c, Triple::zero()) == levels(c),
        nearest_to_levels(levels(c), palette) == nearest_color(c, palette),
{
    let ds = color_distances(c, palette);
    let ls = level_distances(levels(c), palette);
    assert forall|i: int| 0 <= i < palette.len() implies #[trigger] ls[i] == SCALE * SCALE
        * ds[i] by {
        let p = palette[i];
        let ar = (c.r - p.r) * (c.r - p.r);
        let ag = (c.g - p.g) * (c.g - p.g);
        let ab = (c.b - p.b) * (c.b - p.b);
        lemma_scaled_square(p.r as int, c.r as int);
        lemma_scaled_square(p.g as int, c.g as int);
        lemma_scaled_square(p.b as int, c.b as int);
        assert(SCALE * SCALE * (ar + ag + ab) == SCALE * SCALE * ar + SCALE * SCALE * ag + SCALE
            * SCALE * ab) by (nonlinear_arith);
        assert(ds[i] == ar + ag + ab);
    }
    lemma_first_min_scaled(ds, ls, palette.len() as int);
}

proof fn lemma_scaled_square(p: int, c: int)
    ensures
        (SCALE * p - SCALE * c) * (SCALE * p - SCALE * c) == SCALE * SCALE * ((c - p) * (c - p)),
{
    assert((SCALE * p - SCALE * c) * (SCALE * p - SCALE * c) == SCALE * SCALE * ((c - p) * (c
        - p))) by (nonlinear_arith);
}

/// Multiplying every entry by the same positive number leaves the first
/// minimum where it is.
proof fn lemma_first_min_scaled(ds: Seq<int>, ls: Seq<int>, n: int)
    requires
        0 <= n <= ds.len(),
        ds.len() == ls.len(),
        forall|i: int| 0 <= i < ds.len() ==> #[trigger] ls[i] == SCALE * SCALE * ds[i],
    ensures
        first_min_upto(ls, n) == first_min_upto(ds, n),
        0 <= first_min_upto(ds, n),
        n >= 1 ==> first_min_upto(ds, n) < n,
    decreases n,
{
    if n > 1 {
        lemma_first_min_scaled(ds, ls, n - 1);
        let best = first_min_upto(ds, n - 1);
        let a = ds[n - 1];
        let b = ds[best];
        assert(ls[n - 1] == SCALE * SCALE * a);
        assert(ls[best] == SCALE * SCALE * b);
        assert((SCALE * SCALE * a < SCALE * SCALE * b) <==> a < b) by (nonlinear_arith);
    }
}

impl Accum {
    /// No error at all.
    pub(crate) fn zero() -> (a: Accum)
        ensures
            a@ == Triple::zero(),
    {
        Accum { r: 0, g: 0, b: 0 }
    }
}

/// One channel of a pixel with the error it has received, brought back
/// between black and full.
fn correct_channel(value: u8, incoming: i64) -> (level: i64)
    requires
        -0x4000_0000_0000_0000 <= incoming <= 0x4000_0000_0000_0000,
    ensures
        level == clamp_level(SCALE * value + incoming),
{
    let v: i64 = SCALE * (value as i64) + incoming;
    if v < 0 {
        0
    } else if v > FULL {
        FULL
    } else {
        v
    }
}

/// The colour of a pixel with the error it has received, each channel
/// brought back between black and full.
pub(crate) fn correct(pixel: Color, incoming: Accum) -> (t: Accum)
    requires
        incoming@.within(0x4000_0000_0000_0000),
    ensures
        t@ == corrected_levels(pixel, incoming@),
        t@.in_gamut(),
{
    Accum {
        r: correct_channel(pixel.r, incoming.r),
        g: correct_channel(pixel.g, incoming.g),
        b: correct_channel(pixel.b, incoming.b),
    }
}

/// The colour metric between three levels in gamut and a colour.
fn level_distance_of(t: Accum, c: Color) -> (d: i64)
    requires
        t@.in_gamut(),
    ensures
        d == level_distance(t@, c),
{
    let dr: i64 = SCALE * (c.r as i64) - t.r;
    let dg: i64 = SCALE * (c.g as i64) - t.g;
    let db: i64 = SCALE * (c.b as i64) - t.b;
    assert(0 <= dr * dr <= FULL * FULL) by (nonlinear_arith)
        requires
            -FULL <= dr <= FULL,
    ;
    assert(0 <= dg * dg <= FULL * FULL) by (nonlinear_arith)
        requires
            -FULL <= dg <= FULL,
    ;
    assert(0 <= db * db <= FULL * FULL) by (nonlinear_arith)
        requires
            -FULL <= db <= FULL,
    ;
    dr * dr + dg * dg + db * db
}

/// The palette entry nearest to three levels in gamut; of several equally
/// near, the first.
pub(crate) fn quantize(t: Accum, palette: &Palette) -> (q: Color)
    requires
        t@.in_gamut(),
    ensures
        q == nearest_to_levels(t@, palette@),
        palette@.contains(q),
{
    let n = palette.len();
    let ghost ds = level_distances(t@, palette@);
    let mut best: usize = 0;
    let mut best_distance: i64 = level_distance_of(t, palette.entry(0));
    let mut i: usize = 1;
    while i < n
        invariant
            n == palette@.len(),
            ds == level_distances(t@, palette@),
            t@.in_gamut(),
            1 <= i <= n,
            best == first_min_upto(ds, i as int),
            best < i,
            best_distance == ds[best as int],
        decreases n - i,
    {
        let d = level_distance_of(t, palette.entry(i));
        if d < best_distance {
            best = i;
            best_distance = d;
        }
        i += 1;
    }
    palette.entry(best)
}

/// The quantisation error left when the levels `t` become the colour `q`.
pub(crate) fn residual(t: Accum, q: Color) -> (e: Accum)
    requires
        t@.in_gamut(),
    ensures
        e@ == t@.sub(levels(q)),
        e@.within(FULL as int),
{
    Accum {
        r: t.r - SCALE * (q.r as i64),
        g: t.g - SCALE * (q.g as i64),
        b: t.b - SCALE * (q.b as i64),
    }
}

} // verus!
