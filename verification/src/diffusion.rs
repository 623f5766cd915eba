//! Error diffusion: each pixel, in scan order, takes the error that earlier
//! pixels have sent it, is quantised to the palette, and sends its own
//! quantisation error on through a kernel.

use vstd::prelude::*;
use crate::color::{black, grey_of, white, Color};
use crate::kernel::{
    deposit, floyd_steinberg, halves, lemma_share, share, Kernel, KernelView, MAX_TAPS,
};
use crate::levels::{
    correct, corrected_levels, lemma_nearest_to_levels, level_distances, levels, nearest_to_levels,
    quantize, residual, residual_of, Accum, Triple, FULL, SCALE,
};
use crate::palette::{first_min_upto, Palette};
use crate::pointwise::{map_pixels, Rule};
use crate::raster::{
    dimensions, get_pixel, precedes, put_pixel, raster_dims, raster_pixels, Raster,
};

verus! {

/// The largest share that one tap can carry: a full channel of error under
/// the largest weight.
pub const MAX_SHARE: i64 = 71776119044505600;

/// The largest error that can wait in one cell: `MAX_TAPS` shares.
pub const MAX_PENDING: i64 = 2296835809424179200;

/// The shares of the three channels of an error.
pub open spec fn share3(e: Triple, weight: int, den: int) -> Triple {
    Triple { r: share(e.r, weight, den), g: share(e.g, weight, den), b: share(e.b, weight, den) }
}

/// What the cell `(cx, cy)` gets of the error `e` of the pixel `(x, y)`
/// through the first `n` taps of a kernel, channel by channel.
pub open spec fn deposit3(
    k: KernelView,
    x: int,
    y: int,
    e: Triple,
    cx: int,
    cy: int,
    n: int,
) -> Triple {
    Triple {
        r: deposit(k, x, y, e.r, cx, cy, n),
        g: deposit(k, x, y, e.g, cx, cy, n),
        b: deposit(k, x, y, e.b, cx, cy, n),
    }
}

/// One run of error diffusion: the pixels it starts from, the palette it
/// quantises to, and the kernel that spreads the error.
pub struct Diffusion {
    pub source: Map<(int, int), Color>,
    pub width: int,
    pub height: int,
    pub palette: Seq<Color>,
    pub kernel: KernelView,
}

impl Diffusion {
    /// Whether `(x, y)` names a pixel of the raster.
    pub open spec fn inside(self, x: int, y: int) -> bool {
        0 <= x < self.width && 0 <= y < self.height
    }

    /// The error that the cell `(cx, cy)` has received through the first `n`
    /// taps of the kernel once every pixel before `(x, y)` has been
    /// processed: for each of these taps, the share of the error of the
    /// pixel that the tap leads from, where that pixel lies in the raster and
    /// comes before `(x, y)`.
    pub open spec fn received(self, cx: int, cy: int, x: int, y: int, n: int) -> Triple
        decreases y, x, 0int, n,
    {
        if n <= 0 {
            Triple::zero()
        } else {
            let t = self.kernel.taps[n - 1];
            let sx = cx - t.dx;
            let sy = cy - t.dy;
            let rest = self.received(cx, cy, x, y, n - 1);
            if self.inside(sx, sy) && precedes(sx, sy, x, y) {
                rest.add(
                    share3(
                        residual_of(self.corrected(sx, sy), self.palette),
                        t.weight as int,
                        self.kernel.denominator as int,
                    ),
                )
            } else {
                rest
            }
        }
    }

    /// The levels of the pixel `(x, y)` at the moment it is quantised: its
    /// colour with all the error that earlier pixels have sent it, each
    /// channel brought back between black and full.
    pub open spec fn corrected(self, x: int, y: int) -> Triple
        decreases y, x, 1int, 0int,
    {
        corrected_levels(
            self.source[(x, y)],
            self.received(x, y, x, y, self.kernel.taps.len() as int),
        )
    }

    /// The colour that the pixel `(x, y)` ends with: the palette entry
    /// nearest to its corrected levels.
    pub open spec fn quantized(self, x: int, y: int) -> Color {
        nearest_to_levels(self.corrected(x, y), self.palette)
    }

    /// The quantisation error of the pixel `(x, y)`, which its taps pass on.
    pub open spec fn residual(self, x: int, y: int) -> Triple {
        residual_of(self.corrected(x, y), self.palette)
    }
}

/// The run of error diffusion that starts from the pixels of `img`.
pub open spec fn diffusion_of(img: Raster, palette: Seq<Color>, kernel: KernelView) -> Diffusion {
    Diffusion {
        source: raster_pixels(img),
        width: img.spec_width() as int,
        height: img.spec_height() as int,
        palette,
        kernel,
    }
}

/// Black, then white: the palette of binary diffusion.
pub open spec fn black_and_white() -> Seq<Color> {
    seq![black(), white()]
}

/// The greys of the pixels of a raster.
pub open spec fn grey_pixels(pixels: Map<(int, int), Color>) -> Map<(int, int), Color> {
    Map::total(|p: (int, int)| grey_of(pixels[p]))
}

/// The run of binary diffusion that starts from the pixels of `img`: their
/// greys, quantised to black and white, with half of each error sent right
/// and half of it down.
pub open spec fn binary_diffusion_of(img: Raster) -> Diffusion {
    Diffusion {
        source: grey_pixels(raster_pixels(img)),
        width: img.spec_width() as int,
        height: img.spec_height() as int,
        palette: black_and_white(),
        kernel: halves(),
    }
}

/// Whether the three channels hold the same level.
pub open spec fn is_grey(t: Triple) -> bool {
    t.r == t.g && t.g == t.b
}

/// The error buffer as a grid: `height` rows of `width` cells.
pub open spec fn grid_shaped(g: Seq<Vec<Accum>>, width: int, height: int) -> bool {
    &&& g.len() == height
    &&& forall|j: int| 0 <= j < height ==> (#[trigger] g[j])@.len() == width
}

/// The error waiting in the cell `(x, y)` of the buffer.
pub open spec fn cell(g: Seq<Vec<Accum>>, x: int, y: int) -> Triple {
    g[y]@[x]@
}

/// A share of an error of at most a full channel is at most `MAX_SHARE`.
pub proof fn lemma_share_within(e: int, weight: int, den: int)
    requires
        -FULL <= e <= FULL,
        0 <= weight <= u32::MAX,
        0 < den,
    ensures
        -MAX_SHARE <= share(e, weight, den) <= MAX_SHARE,
{
    lemma_share(e, weight, den);
    if e >= 0 {
        assert(e * weight <= FULL * 0xffff_ffff) by (nonlinear_arith)
            requires
                0 <= e <= FULL,
                0 <= weight <= 0xffff_ffff,
        ;
    } else {
        assert(e * weight >= -FULL * 0xffff_ffff) by (nonlinear_arith)
            requires
                -FULL <= e <= 0,
                0 <= weight <= 0xffff_ffff,
        ;
    }
}

/// What one pixel sends to one cell is at most one share for each tap.
pub proof fn lemma_deposit_within(k: KernelView, x: int, y: int, e: int, cx: int, cy: int, n: int)
    requires
        -FULL <= e <= FULL,
        k.denominator > 0,
        0 <= n <= k.taps.len(),
    ensures
        -n * MAX_SHARE <= deposit(k, x, y, e, cx, cy, n) <= n * MAX_SHARE,
    decreases n,
{
    if n > 0 {
        lemma_deposit_within(k, x, y, e, cx, cy, n - 1);
        lemma_share_within(e, k.taps[n - 1].weight as int, k.denominator as int);
    }
}

impl Diffusion {
    /// Corrected levels are in gamut, and the error of a pixel is at most a
    /// full channel.
    pub proof fn lemma_corrected_in_gamut(self, x: int, y: int)
        ensures
            self.corrected(x, y).in_gamut(),
            self.residual(x, y).within(FULL as int),
    {
    }

    /// Every pixel ends with a colour of the palette.
    pub proof fn lemma_quantized_in_palette(self, x: int, y: int)
        requires
            self.palette.len() > 0,
        ensures
            self.palette.contains(self.quantized(x, y)),
    {
        lemma_nearest_to_levels(self.corrected(x, y), self.palette);
    }

    /// The error waiting in a cell is at most one share for each tap.
    pub proof fn lemma_received_within(self, cx: int, cy: int, x: int, y: int, n: int)
        requires
            self.kernel.denominator > 0,
            0 <= n <= self.kernel.taps.len(),
        ensures
            self.received(cx, cy, x, y, n).within(n * MAX_SHARE),
        decreases n,
    {
        if n > 0 {
            self.lemma_received_within(cx, cy, x, y, n - 1);
            let t = self.kernel.taps[n - 1];
            let sx = cx - t.dx;
            let sy = cy - t.dy;
            let e = residual_of(self.corrected(sx, sy), self.palette);
            self.lemma_corrected_in_gamut(sx, sy);
            lemma_share_within(e.r, t.weight as int, self.kernel.denominator as int);
            lemma_share_within(e.g, t.weight as int, self.kernel.denominator as int);
            lemma_share_within(e.b, t.weight as int, self.kernel.denominator as int);
        }
    }

    /// Before the first pixel is processed no cell has received anything.
    pub proof fn lemma_received_start(self, cx: int, cy: int, n: int)
        requires
            0 <= n <= self.kernel.taps.len(),
        ensures
            self.received(cx, cy, 0, 0, n) == Triple::zero(),
        decreases n,
    {
        if n > 0 {
            self.lemma_received_start(cx, cy, n - 1);
        }
    }

    /// Processing the pixel `(x, y)` adds to each cell what the kernel
    /// deposits there of the error of that pixel, and nothing else.
    pub proof fn lemma_received_step(self, cx: int, cy: int, x: int, y: int, n: int)
        requires
            self.inside(x, y),
            0 <= n <= self.kernel.taps.len(),
        ensures
            self.received(cx, cy, x + 1, y, n) == self.received(cx, cy, x, y, n).add(
                deposit3(self.kernel, x, y, self.residual(x, y), cx, cy, n),
            ),
        decreases n,
    {
        if n > 0 {
            self.lemma_received_step(cx, cy, x, y, n - 1);
        }
    }

    /// Under a kernel that points forward, the error of a pixel is complete
    /// when the pixel is processed: nothing that is processed at `(x2, y2)`
    /// or later, the pixel `(x, y)` itself or one after it, adds to what
    /// `(x, y)` has received.
    pub proof fn lemma_received_complete(self, x: int, y: int, x2: int, y2: int, n: int)
        requires
            self.kernel.points_forward(),
            !precedes(x2, y2, x, y),
            0 <= n <= self.kernel.taps.len(),
        ensures
            self.received(x, y, x2, y2, n) == self.received(x, y, x, y, n),
        decreases n,
    {
        if n > 0 {
            self.lemma_received_complete(x, y, x2, y2, n - 1);
            let t = self.kernel.taps[n - 1];
            assert(t.dy > 0 || (t.dy == 0 && t.dx > 0));
        }
    }

    /// The end of a row is the start of the next: nothing is processed in
    /// between.
    pub proof fn lemma_received_row_end(self, cx: int, cy: int, y: int, n: int)
        requires
            0 <= n <= self.kernel.taps.len(),
        ensures
            self.received(cx, cy, self.width, y, n) == self.received(cx, cy, 0, y + 1, n),
        decreases n,
    {
        if n > 0 {
            self.lemma_received_row_end(cx, cy, y, n - 1);
        }
    }
}

impl Diffusion {
    /// Whether two runs have the same size, palette and kernel, and start
    /// from the same colour at every pixel.
    pub open spec fn same_run(self, other: Diffusion) -> bool {
        &&& self.width == other.width
        &&& self.height == other.height
        &&& self.palette == other.palette
        &&& self.kernel == other.kernel
        &&& forall|x: int, y: int|
            self.inside(x, y) ==> #[trigger] self.source[(x, y)] == other.source[(x, y)]
    }

    /// Two runs that are the same receive the same error everywhere.
    pub proof fn lemma_same_received(
        self,
        other: Diffusion,
        cx: int,
        cy: int,
        x: int,
        y: int,
        n: int,
    )
        requires
            self.same_run(other),
            0 <= n <= self.kernel.taps.len(),
        ensures
            self.received(cx, cy, x, y, n) == other.received(cx, cy, x, y, n),
        decreases y, x, 0int, n,
    {
        if n > 0 {
            self.lemma_same_received(other, cx, cy, x, y, n - 1);
            let t = self.kernel.taps[n - 1];
            let sx = cx - t.dx;
            let sy = cy - t.dy;
            if self.inside(sx, sy) && precedes(sx, sy, x, y) {
                self.lemma_same_corrected(other, sx, sy);
            }
        }
    }

    /// Determinism. The outcome of a run is a function of the size of the
    /// raster, of the colours of its pixels, of the palette and of the
    /// kernel, and of nothing else: two runs that agree on these give every
    /// pixel the same colour.
    pub proof fn lemma_same_corrected(self, other: Diffusion, x: int, y: int)
        requires
            self.same_run(other),
            self.inside(x, y),
        ensures
            self.corrected(x, y) == other.corrected(x, y),
            self.quantized(x, y) == other.quantized(x, y),
            self.residual(x, y) == other.residual(x, y),
        decreases y, x, 1int, 0int,
    {
        self.lemma_same_received(other, x, y, x, y, self.kernel.taps.len() as int);
    }

    /// With grey pixels and the palette of black and white, the error in
    /// every cell is the same in the three channels.
    pub proof fn lemma_grey_received(self, cx: int, cy: int, x: int, y: int, n: int)
        requires
            self.palette == black_and_white(),
            forall|i: int, j: int|
                self.inside(i, j) ==> is_grey(#[trigger] levels(self.source[(i, j)])),
            0 <= n <= self.kernel.taps.len(),
        ensures
            is_grey(self.received(cx, cy, x, y, n)),
        decreases y, x, 0int, n,
    {
        if n > 0 {
            self.lemma_grey_received(cx, cy, x, y, n - 1);
            let t = self.kernel.taps[n - 1];
            let sx = cx - t.dx;
            let sy = cy - t.dy;
            if self.inside(sx, sy) && precedes(sx, sy, x, y) {
                self.lemma_binary_threshold(sx, sy);
            }
        }
    }

    /// Binary diffusion is a threshold at one half. With grey pixels and the
    /// palette of black and white, the corrected levels of a pixel are grey,
    /// and the pixel becomes white exactly when they lie above the middle
    /// between black and full.
    pub proof fn lemma_binary_threshold(self, x: int, y: int)
        requires
            self.palette == black_and_white(),
            forall|i: int, j: int|
                self.inside(i, j) ==> is_grey(#[trigger] levels(self.source[(i, j)])),
            self.inside(x, y),
        ensures
            is_grey(self.corrected(x, y)),
            is_grey(self.residual(x, y)),
            self.quantized(x, y) == if 2 * self.corrected(x, y).r > FULL {
                white()
            } else {
                black()
            },
        decreases y, x, 1int, 0int,
    {
        self.lemma_grey_received(x, y, x, y, self.kernel.taps.len() as int);
        assert(is_grey(levels(self.source[(x, y)])));
        lemma_nearest_black_or_white(self.corrected(x, y));
    }
}

/// Between black and white, grey levels are nearest to white exactly when
/// they lie above the middle between black and full.
pub proof fn lemma_nearest_black_or_white(t: Triple)
    requires
        t.in_gamut(),
        is_grey(t),
    ensures
        nearest_to_levels(t, black_and_white()) == if 2 * t.r > FULL {
            white()
        } else {
            black()
        },
{
    let v = t.r;
    let ds = level_distances(t, black_and_white());
    reveal_with_fuel(first_min_upto, 3);
    assert(SCALE * 255 == FULL);
    assert((SCALE * 0 - v) * (SCALE * 0 - v) == v * v) by (nonlinear_arith);
    assert(ds[0] == 3 * (v * v));
    assert(ds[1] == 3 * ((FULL - v) * (FULL - v)));
    assert(((FULL - v) * (FULL - v) < v * v) <==> 2 * v > FULL) by (nonlinear_arith)
        requires
            0 <= v <= FULL,
            FULL == 16711680,
    ;
}

/// Determinism of error diffusion: two rasters of the same size with the
/// same colour at every pixel come out with the same colour at every pixel,
/// under the same palette and kernel.
pub proof fn lemma_diffusion_deterministic(
    a: Raster,
    b: Raster,
    palette: Seq<Color>,
    kernel: KernelView,
    x: int,
    y: int,
)
    requires
        a.same_size(b),
        forall|i: int, j: int| a.inside(i, j) ==> #[trigger] a.at(i, j) == b.at(i, j),
        a.inside(x, y),
    ensures
        diffusion_of(a, palette, kernel).quantized(x, y) == diffusion_of(
            b,
            palette,
            kernel,
        ).quantized(x, y),
{
    let da = diffusion_of(a, palette, kernel);
    let db = diffusion_of(b, palette, kernel);
    assert forall|i: int, j: int| da.inside(i, j) implies #[trigger] da.source[(i, j)]
        == db.source[(i, j)] by {
        assert(a.at(i, j) == b.at(i, j));
    }
    da.lemma_same_corrected(db, x, y);
}

/// An error buffer of `height` rows of `width` cells, with no error in it.
fn empty_buffer(width: u32, height: u32) -> (buf: Vec<Vec<Accum>>)
    ensures
        grid_shaped(buf@, width as int, height as int),
        forall|x: int, y: int|
            0 <= x < width && 0 <= y < height ==> #[trigger] cell(buf@, x, y) == Triple::zero(),
{
    let mut buf: Vec<Vec<Accum>> = Vec::new();
    let mut y: u32 = 0;
    while y < height
        invariant
            y <= height,
            grid_shaped(buf@, width as int, y as int),
            forall|i: int, j: int|
                0 <= i < width && 0 <= j < y ==> #[trigger] cell(buf@, i, j) == Triple::zero(),
        decreases height - y,
    {
        let mut row: Vec<Accum> = Vec::new();
        let mut x: u32 = 0;
        while x < width
            invariant
                x <= width,
                row@.len() == x,
                forall|i: int| 0 <= i < x ==> (#[trigger] row@[i])@ == Triple::zero(),
            decreases width - x,
        {
            row.push(Accum::zero());
            x += 1;
        }
        let ghost before = buf@;
        buf.push(row);
        proof {
            assert forall|i: int, j: int| 0 <= i < width && 0 <= j < y + 1 implies #[trigger] cell(
                buf@,
                i,
                j,
            ) == Triple::zero() by {
                if j < y {
                    assert(cell(before, i, j) == Triple::zero());
                }
            }
        }
        y += 1;
    }
    buf
}

/// The shares of the three channels of an error through one tap.
fn share3_of(e: Accum, weight: u32, den: u32) -> (s: Accum)
    requires
        e@.within(FULL as int),
        den > 0,
    ensures
        s@ == share3(e@, weight as int, den as int),
        s@.within(MAX_SHARE as int),
{
    proof {
        lemma_share_within(e.r as int, weight as int, den as int);
        lemma_share_within(e.g as int, weight as int, den as int);
        lemma_share_within(e.b as int, weight as int, den as int);
    }
    Accum {
        r: share_of(e.r, weight, den),
        g: share_of(e.g, weight, den),
        b: share_of(e.b, weight, den),
    }
}

/// The share of one channel of an error through one tap.
fn share_of(e: i64, weight: u32, den: u32) -> (s: i64)
    requires
        -FULL <= e <= FULL,
        den > 0,
    ensures
        s == share(e as int, weight as int, den as int),
{
    if e >= 0 {
        assert(0 <= e * weight <= FULL * 0xffff_ffff) by (nonlinear_arith)
            requires
                0 <= e <= FULL,
                0 <= weight <= 0xffff_ffff,
        ;
        (e * (weight as i64)) / (den as i64)
    } else {
        assert(0 <= (-e) * weight <= FULL * 0xffff_ffff) by (nonlinear_arith)
            requires
                0 <= -e <= FULL,
                0 <= weight <= 0xffff_ffff,
        ;
        -(((-e) * (weight as i64)) / (den as i64))
    }
}

/// Sends the error `err` of the pixel `(x, y)` through every tap of the
/// kernel into the buffer. A tap that points outside the raster sends
/// nothing: its share is dropped.
fn spread(
    buf: &mut Vec<Vec<Accum>>,
    width: u32,
    height: u32,
    x: u32,
    y: u32,
    err: Accum,
    kernel: &Kernel,
)
    requires
        x < width,
        y < height,
        grid_shaped(old(buf)@, width as int, height as int),
        err@.within(FULL as int),
        forall|cx: int, cy: int|
            0 <= cx < width && 0 <= cy < height ==> (#[trigger] cell(old(buf)@, cx, cy)).within(
                MAX_PENDING as int,
            ),
    ensures
        grid_shaped(final(buf)@, width as int, height as int),
        forall|cx: int, cy: int|
            0 <= cx < width && 0 <= cy < height ==> #[trigger] cell(final(buf)@, cx, cy) == cell(
                old(buf)@,
                cx,
                cy,
            ).add(deposit3(kernel@, x as int, y as int, err@, cx, cy, kernel@.taps.len() as int)),
{
    let n = kernel.len();
    let den = kernel.denominator();
    let ghost kv = kernel@;
    let ghost start = buf@;
    let mut k: usize = 0;
    while k < n
        invariant
            k <= n,
            n == kv.taps.len(),
            n <= MAX_TAPS,
            kv == kernel@,
            den == kv.denominator,
            den > 0,
            x < width,
            y < height,
            err@.within(FULL as int),
            grid_shaped(buf@, width as int, height as int),
            forall|cx: int, cy: int|
                0 <= cx < width && 0 <= cy < height ==> (#[trigger] cell(start, cx, cy)).within(
                    MAX_PENDING as int,
                ),
            forall|cx: int, cy: int|
                0 <= cx < width && 0 <= cy < height ==> #[trigger] cell(buf@, cx, cy) == cell(
                    start,
                    cx,
                    cy,
                ).add(deposit3(kv, x as int, y as int, err@, cx, cy, k as int)),
        decreases n - k,
    {
        let t = kernel.entry(k);
        let nx: i64 = x as i64 + t.dx as i64;
        let ny: i64 = y as i64 + t.dy as i64;
        if 0 <= nx && nx < width as i64 && 0 <= ny && ny < height as i64 {
            let s = share3_of(err, t.weight, den);
            let row = ny as usize;
            let col = nx as usize;
            let ghost before = buf@;
            let cur = buf[row][col];
            proof {
                assert(cur@ == cell(before, nx as int, ny as int));
                assert(cell(start, nx as int, ny as int).within(MAX_PENDING as int));
                let (px, py) = (x as int, y as int);
                lemma_deposit_within(kv, px, py, err.r as int, nx as int, ny as int, k as int);
                lemma_deposit_within(kv, px, py, err.g as int, nx as int, ny as int, k as int);
                lemma_deposit_within(kv, px, py, err.b as int, nx as int, ny as int, k as int);
                assert(k * MAX_SHARE <= 32 * MAX_SHARE) by (nonlinear_arith)
                    requires
                        0 <= k <= 32,
                        MAX_SHARE >= 0,
                ;
            }
            buf[row][col] = Accum { r: cur.r + s.r, g: cur.g + s.g, b: cur.b + s.b };
            proof {
                assert forall|cx: int, cy: int|
                    0 <= cx < width && 0 <= cy < height implies #[trigger] cell(buf@, cx, cy)
                    == cell(start, cx, cy).add(
                    deposit3(kv, x as int, y as int, err@, cx, cy, k + 1),
                ) by {
                    assert(cell(before, cx, cy) == cell(start, cx, cy).add(
                        deposit3(kv, x as int, y as int, err@, cx, cy, k as int),
                    ));
                    if cx == nx && cy == ny {
                    } else {
                        assert(cell(buf@, cx, cy) == cell(before, cx, cy));
                    }
                }
            }
        }
        k += 1;
    }
}

/// Error diffusion of `image` to `palette` through `kernel`, in place.
///
/// The pixels are processed row by row from the top, each row from the left.
/// Each pixel takes the error that earlier pixels have sent it, is replaced
/// by the nearest palette entry, and sends its quantisation error through
/// the taps of the kernel; what a tap would send outside the raster is
/// dropped.
pub fn apply_diffusion_matrice(image: &mut Raster, palette: &Palette, kernel: &Kernel)
    ensures
        final(image).same_size(*old(image)),
        forall|x: int, y: int|
            old(image).inside(x, y) ==> #[trigger] final(image).at(x, y) == diffusion_of(
                *old(image),
                palette@,
                kernel@,
            ).quantized(x, y),
        forall|x: int, y: int|
            old(image).inside(x, y) ==> palette@.contains(#[trigger] final(image).at(x, y)),
{
    let (w, h) = dimensions(image);
    let n = kernel.len();
    let den = kernel.denominator();
    let count = palette.len();
    let ghost d = diffusion_of(*old(image), palette@, kernel@);
    let mut buf = empty_buffer(w, h);
    proof {
        assert forall|i: int, j: int| 0 <= i < w && 0 <= j < h implies #[trigger] cell(buf@, i, j)
            == d.received(i, j, 0, 0, n as int) by {
            d.lemma_received_start(i, j, n as int);
        }
    }
    let mut y: u32 = 0;
    while y < h
        invariant
            y <= h,
            raster_dims(*image) == (w as nat, h as nat),
            raster_dims(*old(image)) == (w as nat, h as nat),
            d == diffusion_of(*old(image), palette@, kernel@),
            n == d.kernel.taps.len(),
            n <= MAX_TAPS,
            d.kernel.denominator > 0,
            d.palette.len() > 0,
            grid_shaped(buf@, w as int, h as int),
            forall|i: int, j: int|
                0 <= i < w && 0 <= j < h ==> #[trigger] image.at(i, j) == if precedes(
                    i,
                    j,
                    0,
                    y as int,
                ) {
                    d.quantized(i, j)
                } else {
                    d.source[(i, j)]
                },
            forall|i: int, j: int|
                0 <= i < w && 0 <= j < h ==> #[trigger] cell(buf@, i, j) == d.received(
                    i,
                    j,
                    0,
                    y as int,
                    n as int,
                ),
        decreases h - y,
    {
        let mut x: u32 = 0;
        while x < w
            invariant
                x <= w,
                y < h,
                raster_dims(*image) == (w as nat, h as nat),
                raster_dims(*old(image)) == (w as nat, h as nat),
                d == diffusion_of(*old(image), palette@, kernel@),
                n == d.kernel.taps.len(),
                n <= MAX_TAPS,
                d.kernel.denominator > 0,
                d.palette.len() > 0,
                grid_shaped(buf@, w as int, h as int),
                forall|i: int, j: int|
                    0 <= i < w && 0 <= j < h ==> #[trigger] image.at(i, j) == if precedes(
                        i,
                        j,
                        x as int,
                        y as int,
                    ) {
                        d.quantized(i, j)
                    } else {
                        d.source[(i, j)]
                    },
                forall|i: int, j: int|
                    0 <= i < w && 0 <= j < h ==> #[trigger] cell(buf@, i, j) == d.received(
                        i,
                        j,
                        x as int,
                        y as int,
                        n as int,
                    ),
            decreases w - x,
        {
            let pixel = get_pixel(image, x, y);
            let incoming = buf[y as usize][x as usize];
            proof {
                assert(image.at(x as int, y as int) == d.source[(x as int, y as int)]);
                assert(incoming@ == cell(buf@, x as int, y as int));
                d.lemma_received_within(x as int, y as int, x as int, y as int, n as int);
                assert(n * MAX_SHARE <= 32 * MAX_SHARE) by (nonlinear_arith)
                    requires
                        0 <= n <= 32,
                        MAX_SHARE >= 0,
                ;
            }
            let t = correct(pixel, incoming);
            let q = quantize(t, palette);
            let err = residual(t, q);
            let ghost before = *image;
            put_pixel(image, x, y, q);
            proof {
                assert(t@ == d.corrected(x as int, y as int));
                assert(q == d.quantized(x as int, y as int));
                assert(err@ == d.residual(x as int, y as int));
                assert forall|cx: int, cy: int| 0 <= cx < w && 0 <= cy < h implies (#[trigger] cell(
                    buf@,
                    cx,
                    cy,
                )).within(MAX_PENDING as int) by {
                    d.lemma_received_within(cx, cy, x as int, y as int, n as int);
                }
            }
            let ghost pending = buf@;
            spread(&mut buf, w, h, x, y, err, kernel);
            proof {
                assert forall|i: int, j: int| 0 <= i < w && 0 <= j < h implies #[trigger] cell(
                    buf@,
                    i,
                    j,
                ) == d.received(i, j, x + 1, y as int, n as int) by {
                    d.lemma_received_step(i, j, x as int, y as int, n as int);
                    assert(cell(pending, i, j) == d.received(i, j, x as int, y as int, n as int));
                }
                assert forall|i: int, j: int| 0 <= i < w && 0 <= j < h implies #[trigger] image.at(
                    i,
                    j,
                ) == if precedes(i, j, x + 1, y as int) {
                    d.quantized(i, j)
                } else {
                    d.source[(i, j)]
                } by {
                    assert(before.at(i, j) == if precedes(i, j, x as int, y as int) {
                        d.quantized(i, j)
                    } else {
                        d.source[(i, j)]
                    });
                }
            }
            x += 1;
        }
        proof {
            assert forall|i: int, j: int| 0 <= i < w && 0 <= j < h implies #[trigger] cell(
                buf@,
                i,
                j,
            ) == d.received(i, j, 0, y + 1, n as int) by {
                d.lemma_received_row_end(i, j, y as int, n as int);
            }
        }
        y += 1;
    }
    proof {
        assert forall|x: int, y: int| old(image).inside(x, y) implies palette@.contains(
            #[trigger] image.at(x, y),
        ) by {
            d.lemma_quantized_in_palette(x, y);
        }
    }
}

/// Error diffusion to `palette` with half of each error sent to the pixel on
/// the right and half of it to the pixel below.
pub fn apply_diffusion_erreur_palette(image: &mut Raster, palette: &Palette)
    ensures
        final(image).same_size(*old(image)),
        forall|x: int, y: int|
            old(image).inside(x, y) ==> #[trigger] final(image).at(x, y) == diffusion_of(
                *old(image),
                palette@,
                halves(),
            ).quantized(x, y),
        forall|x: int, y: int|
            old(image).inside(x, y) ==> palette@.contains(#[trigger] final(image).at(x, y)),
{
    let kernel = Kernel::halves();
    apply_diffusion_matrice(image, palette, &kernel);
}

/// Error diffusion to `palette` with the kernel of Floyd and Steinberg.
pub fn apply_diffusion_erreur_floyd_steinberg(image: &mut Raster, palette: &Palette)
    ensures
        final(image).same_size(*old(image)),
        forall|x: int, y: int|
            old(image).inside(x, y) ==> #[trigger] final(image).at(x, y) == diffusion_of(
                *old(image),
                palette@,
                floyd_steinberg(),
            ).quantized(x, y),
        forall|x: int, y: int|
            old(image).inside(x, y) ==> palette@.contains(#[trigger] final(image).at(x, y)),
{
    let kernel = Kernel::floyd_steinberg();
    apply_diffusion_matrice(image, palette, &kernel);
}

/// Binary error diffusion: the brightness of each pixel, with the error it
/// has received, becomes white above one half and black otherwise; half of
/// the error goes to the pixel on the right and half of it to the pixel
/// below.
pub fn apply_diffusion_erreur(image: &mut Raster)
    ensures
        final(image).same_size(*old(image)),
        forall|x: int, y: int|
            old(image).inside(x, y) ==> #[trigger] final(image).at(x, y) == binary_diffusion_of(
                *old(image),
            ).quantized(x, y),
        forall|x: int, y: int|
            old(image).inside(x, y) ==> #[trigger] final(image).at(x, y) == (if 2
                * binary_diffusion_of(*old(image)).corrected(x, y).r > FULL {
                white()
            } else {
                black()
            }),
{
    map_pixels(image, &Rule::Grey);
    let ghost greys = *image;
    let palette = Palette::black_and_white();
    let kernel = Kernel::halves();
    apply_diffusion_matrice(image, &palette, &kernel);
    proof {
        let run = diffusion_of(greys, black_and_white(), halves());
        let model = binary_diffusion_of(*old(image));
        assert forall|i: int, j: int| run.inside(i, j) implies #[trigger] run.source[(i, j)]
            == model.source[(i, j)] by {
            assert(greys.at(i, j) == grey_of(old(image).at(i, j)));
        }
        assert forall|i: int, j: int| model.inside(i, j) implies is_grey(
            #[trigger] levels(model.source[(i, j)]),
        ) by {}
        assert forall|x: int, y: int| old(image).inside(x, y) implies #[trigger] image.at(x, y)
            == model.quantized(x, y) && image.at(x, y) == (if 2 * model.corrected(x, y).r > FULL {
            white()
        } else {
            black()
        }) by {
            run.lemma_same_corrected(model, x, y);
            model.lemma_binary_threshold(x, y);
        }
    }
}

} // verus!
