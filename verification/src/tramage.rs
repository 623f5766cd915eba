//! Random dithering: each pixel is compared with a threshold drawn at
//! random, scaled by the noise scale.

use rand::Rng;
use vstd::prelude::*;
use crate::color::{black, luminance, luminosite, white, Color};
use crate::levels::SCALE;
use crate::raster::{dimensions, get_pixel, precedes, put_pixel, raster_dims, Raster};

verus! {

/// The handle on the generator of the current thread, `rand::rngs::ThreadRng`.
#[verifier::external_type_specification]
#[verifier::external_body]
pub struct ExThreadRng(rand::rngs::ThreadRng);

/// `rand::thread_rng`: a handle on the generator of the current thread.
/// Nothing is stated of it. It panics where the operating system gives the
/// generator no seed.
pub assume_specification[ rand::thread_rng ]() -> (rng: rand::rngs::ThreadRng);

/// `rand::Rng::gen` for `u32`: the next 32 bits of the generator. Nothing is
/// stated of them.
#[verifier::external_body]
fn next_bits(rng: &mut rand::rngs::ThreadRng) -> (bits: u32) {
    rng.gen::<u32>()
}

/// Number of thresholds that can be drawn: a threshold is `draw / DRAWS`,
/// with `draw` from zero up to `DRAWS - 1`.
pub const DRAWS: u32 = 0x100_0000;

/// The draw that 32 random bits give: the upper 24 of them.
pub open spec fn draw_of(bits: u32) -> int {
    bits as int / 256
}

/// Whether a pixel of luminance `lum` becomes white: when `lum / 255`
/// exceeds the threshold `draw / DRAWS` times the noise scale
/// `seuil / SCALE`.
pub open spec fn noise_white(lum: int, draw: int, seuil: int) -> bool {
    lum * DRAWS * SCALE > draw * seuil * 255
}

/// The colour that random dithering gives a pixel for which `bits` were
/// drawn.
pub open spec fn noise_color(c: Color, bits: u32, seuil: u32) -> Color {
    if noise_white(luminance(c), draw_of(bits), seuil as int) {
        white()
    } else {
        black()
    }
}

/// Random dithering of one pixel, given the 32 bits drawn for it. `seuil` is
/// the noise scale in units of 1/65536, so that 65536 stands for one.
pub fn tramage_pixel(pixel: Color, bits: u32, seuil: u32) -> (out: Color)
    ensures
        out == noise_color(pixel, bits, seuil),
{
    let lum = luminosite(&pixel) as u64;
    let draw = (bits >> 8) as u64;
    assert(bits >> 8 == bits / 256 && (bits >> 8) < 0x100_0000) by (bit_vector);
    assert(lum * 0x100_0000 * 65536 <= 255 * 0x100_0000 * 65536) by (nonlinear_arith)
        requires
            lum <= 255,
    ;
    assert(draw * seuil <= 0xff_ffff * 0xffff_ffff) by (nonlinear_arith)
        requires
            draw <= 0xff_ffff,
            seuil <= 0xffff_ffff,
    ;
    assert(draw * seuil * 255 == (draw * seuil) * 255);
    let left: u64 = lum * 0x100_0000 * 65536;
    let right: u64 = draw * (seuil as u64) * 255;
    if left > right {
        Color::white()
    } else {
        Color::black()
    }
}

/// Whether `after` is `before` dithered at random with the bits `bits` drawn
/// for its pixels.
pub open spec fn dithered_with(
    before: Raster,
    after: Raster,
    seuil: u32,
    bits: Map<(int, int), u32>,
) -> bool {
    &&& after.same_size(before)
    &&& forall|x: int, y: int|
        before.inside(x, y) ==> #[trigger] after.at(x, y) == noise_color(
            before.at(x, y),
            bits[(x, y)],
            seuil,
        )
}

/// Random dithering. For each pixel a threshold between zero and one is
/// drawn, and the pixel becomes white when its luminance, on the scale from
/// zero to one, exceeds the threshold times the noise scale; it becomes
/// black otherwise. `seuil` is the noise scale in units of 1/65536, so that
/// 65536 stands for one.
///
/// The thresholds come from the generator of the current thread, so that two
/// runs differ: what is certain is that the result is the dithering of the
/// raster with some bits, one draw for each pixel.
pub fn apply_tramage(image: &mut Raster, seuil: u32)
    ensures
        exists|bits: Map<(int, int), u32>| dithered_with(*old(image), *final(image), seuil, bits),
        forall|x: int, y: int|
            old(image).inside(x, y) ==> {
                ||| #[trigger] final(image).at(x, y) == white()
                ||| final(image).at(x, y) == black()
            },
{
    let (w, h) = dimensions(image);
    let ghost source = *old(image);
    let ghost mut drawn: Map<(int, int), u32> = Map::empty();
    let mut rng = rand::thread_rng();
    let mut y: u32 = 0;
    while y < h
        invariant
            y <= h,
            source == *old(image),
            raster_dims(*image) == (w as nat, h as nat),
            raster_dims(source) == (w as nat, h as nat),
            forall|i: int, j: int|
                0 <= i < w && 0 <= j < h ==> #[trigger] image.at(i, j) == if precedes(
                    i,
                    j,
                    0,
                    y as int,
                ) {
                    noise_color(source.at(i, j), drawn[(i, j)], seuil)
                } else {
                    source.at(i, j)
                },
        decreases h - y,
    {
        let mut x: u32 = 0;
        while x < w
            invariant
                x <= w,
                y < h,
                source == *old(image),
                raster_dims(*image) == (w as nat, h as nat),
                raster_dims(source) == (w as nat, h as nat),
                forall|i: int, j: int|
                    0 <= i < w && 0 <= j < h ==> #[trigger] image.at(i, j) == if precedes(
                        i,
                        j,
                        x as int,
                        y as int,
                    ) {
                        noise_color(source.at(i, j), drawn[(i, j)], seuil)
                    } else {
                        source.at(i, j)
                    },
            decreases w - x,
        {
            let c = get_pixel(image, x, y);
            let bits = next_bits(&mut rng);
            let ghost before = *image;
            let ghost drawn_before = drawn;
            put_pixel(image, x, y, tramage_pixel(c, bits, seuil));
            proof {
                drawn = drawn.insert((x as int, y as int), bits);
                assert(before.at(x as int, y as int) == source.at(x as int, y as int));
                assert forall|i: int, j: int| 0 <= i < w && 0 <= j < h implies #[trigger] image.at(
                    i,
                    j,
                ) == if precedes(i, j, x + 1, y as int) {
                    noise_color(source.at(i, j), drawn[(i, j)], seuil)
                } else {
                    source.at(i, j)
                } by {
                    assert(before.at(i, j) == if precedes(i, j, x as int, y as int) {
                        noise_color(source.at(i, j), drawn_before[(i, j)], seuil)
                    } else {
                        source.at(i, j)
                    });
                }
            }
            x += 1;
        }
        y += 1;
    }
    proof {
        assert(dithered_with(*old(image), *image, seuil, drawn));
    }
}

/// Number of draws, of all `DRAWS`, for which a pixel of luminance `lum`
/// becomes white when the noise scale is one.
pub open spec fn white_draws(lum: int) -> int {
    (lum * DRAWS + 254) / 255
}

/// With no noise at all, every pixel that is not of luminance zero becomes
/// white, whatever is drawn; a pixel of luminance zero never does. With the
/// noise scale at one, a pixel becomes white for exactly the first
/// `white_draws` draws: for a share of all draws that is its luminance on
/// the scale from zero to one, or more by less than one draw.
pub proof fn lemma_noise_white(lum: int, draw: int, seuil: int)
    requires
        0 <= lum <= 255,
        0 <= draw < DRAWS,
        0 <= seuil,
    ensures
        lum == 0 ==> !noise_white(lum, draw, seuil),
        seuil == 0 ==> (noise_white(lum, draw, seuil) <==> lum > 0),
        seuil == SCALE ==> (noise_white(lum, draw, seuil) <==> draw < white_draws(lum)),
        lum * DRAWS <= 255 * white_draws(lum) < lum * DRAWS + 255,
        0 <= white_draws(lum) <= DRAWS,
{
    assert(draw * seuil * 255 >= 0) by (nonlinear_arith)
        requires
            draw >= 0,
            seuil >= 0,
    ;
    assert(draw * 0 * 255 == 0);
    if seuil == SCALE {
        assert(draw * seuil * 255 == (draw * 255) * 65536) by (nonlinear_arith)
            requires
                seuil == 65536,
        ;
        assert(lum * DRAWS * SCALE == (lum * DRAWS) * 65536) by (nonlinear_arith)
            requires
                SCALE == 65536,
        ;
    }
}

} // verus!
