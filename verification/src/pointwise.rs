//! The transforms that decide each pixel on its own: threshold, palette
//! quantisation, ordered dithering, and the whitening of every other pixel.

use vstd::prelude::*;
use crate::color::{black, grey_of, luminance, luminosite, white, Color};
use crate::palette::{nearest_color, plus_proche_couleur, standard_colors, Palette, PaletteError};
use crate::raster::{dimensions, get_pixel, precedes, put_pixel, raster_dims, Raster};

verus! {

/// The luminance from which a pixel counts as light.
pub const MID_LUMINANCE: u8 = 128;

/// Threshold: the light colour for a pixel at least as bright as the middle
/// of the scale, the dark colour for any other.
pub open spec fn threshold_color(c: Color, light: Color, dark: Color) -> Color {
    if luminance(c) >= MID_LUMINANCE {
        light
    } else {
        dark
    }
}

/// Rank of a cell in the two by two pattern from which the Bayer matrices
/// are built.
pub open spec fn base_rank(x: int, y: int) -> int {
    if y % 2 == 0 {
        if x % 2 == 0 {
            0
        } else {
            2
        }
    } else {
        if x % 2 == 0 {
            3
        } else {
            1
        }
    }
}

/// Rank, from 0 to 63, of the cell `(x, y)` in the eight by eight Bayer
/// matrix.
pub open spec fn bayer_rank(x: int, y: int) -> int {
    16 * base_rank(x, y) + 4 * base_rank(x / 2, y / 2) + base_rank(x / 4, y / 4)
}

/// Threshold of the cell `(x, y)` of the eight by eight Bayer matrix, on the
/// scale of luminance: the middle of the band of its rank.
pub open spec fn bayer_threshold(x: int, y: int) -> int {
    4 * bayer_rank(x, y) + 2
}

/// Ordered dithering: white for a pixel at least as bright as the threshold
/// that the matrix, tiled over the raster, holds for its place; black for
/// any other.
pub open spec fn ordered_color(matrix: [[u8; 8]; 8], x: int, y: int, c: Color) -> Color {
    if luminance(c) >= matrix[y % 8][x % 8] {
        white()
    } else {
        black()
    }
}

/// Whitening of every other pixel: white where the sum of the coordinates
/// is even, the pixel's own colour elsewhere.
pub open spec fn every_other_color(x: int, y: int, c: Color) -> Color {
    if (x + y) % 2 == 0 {
        white()
    } else {
        c
    }
}

/// A rule that gives a pixel its new colour from its place and its old
/// colour.
pub(crate) enum Rule<'a> {
    Threshold { light: Color, dark: Color },
    Nearest { palette: &'a Palette },
    Ordered { matrix: &'a [[u8; 8]; 8] },
    EveryOther,
    Grey,
}

impl<'a> Rule<'a> {
    pub(crate) open spec fn result(self, x: int, y: int, c: Color) -> Color {
        match self {
            Rule::Threshold { light, dark } => threshold_color(c, light, dark),
            Rule::Nearest { palette } => nearest_color(c, palette@),
            Rule::Ordered { matrix } => ordered_color(*matrix, x, y, c),
            Rule::EveryOther => every_other_color(x, y, c),
            Rule::Grey => grey_of(c),
        }
    }

    fn apply(&self, x: u32, y: u32, c: Color) -> (out: Color)
        ensures
            out == self.result(x as int, y as int, c),
    {
        match self {
            Rule::Threshold { light, dark } => {
                if luminosite(&c) >= MID_LUMINANCE {
                    *light
                } else {
                    *dark
                }
            },
            Rule::Nearest { palette } => plus_proche_couleur(c, palette),
            Rule::Ordered { matrix } => {
                let threshold = matrix[(y % 8) as usize][(x % 8) as usize];
                if luminosite(&c) >= threshold {
                    Color::white()
                } else {
                    Color::black()
                }
            },
            Rule::EveryOther => {
                if (x % 2 == 0) == (y % 2 == 0) {
                    Color::white()
                } else {
                    c
                }
            },
            Rule::Grey => {
                let l = luminosite(&c);
                Color { r: l, g: l, b: l }
            },
        }
    }
}

/// Gives every pixel of `image` the colour that `rule` makes of it.
pub(crate) fn map_pixels(image: &mut Raster, rule: &Rule)
    ensures
        final(image).same_size(*old(image)),
        forall|x: int, y: int|
            old(image).inside(x, y) ==> #[trigger] final(image).at(x, y) == rule.result(
                x,
                y,
                old(image).at(x, y),
            ),
{
    let (w, h) = dimensions(image);
    let ghost source = *old(image);
    let mut y: u32 = 0;
    while y < h
        invariant
            y <= h,
            source == *old(image),
            raster_dims(*image) == (w as nat, h as nat),
            raster_dims(source) == (w as nat, h as nat),
            forall|i: int, j: int|
                0 <= i < w && 0 <= j < h ==> #[trigger] image.at(i, j) == if precedes(
                    i,
                    j,
                    0,
                    y as int,
                ) {
                    rule.result(i, j, source.at(i, j))
                } else {
                    source.at(i, j)
                },
        decreases h - y,
    {
        let mut x: u32 = 0;
        while x < w
            invariant
                x <= w,
                y < h,
                source == *old(image),
                raster_dims(*image) == (w as nat, h as nat),
                raster_dims(source) == (w as nat, h as nat),
                forall|i: int, j: int|
                    0 <= i < w && 0 <= j < h ==> #[trigger] image.at(i, j) == if precedes(
                        i,
                        j,
                        x as int,
                        y as int,
                    ) {
                        rule.result(i, j, source.at(i, j))
                    } else {
                        source.at(i, j)
                    },
            decreases w - x,
        {
            let c = get_pixel(image, x, y);
            let ghost before = *image;
            put_pixel(image, x, y, rule.apply(x, y, c));
            proof {
                assert(before.at(x as int, y as int) == source.at(x as int, y as int));
                assert forall|i: int, j: int| 0 <= i < w && 0 <= j < h implies #[trigger] image.at(
                    i,
                    j,
                ) == if precedes(i, j, x + 1, y as int) {
                    rule.result(i, j, source.at(i, j))
                } else {
                    source.at(i, j)
                } by {
                    assert(before.at(i, j) == if precedes(i, j, x as int, y as int) {
                        rule.result(i, j, source.at(i, j))
                    } else {
                        source.at(i, j)
                    });
                }
            }
            x += 1;
        }
        y += 1;
    }
}

/// Threshold: every pixel at least as bright as the middle of the scale
/// becomes `couleur_claire`, every other pixel `couleur_foncee`.
pub fn apply_seuil(image: &mut Raster, couleur_claire: Color, couleur_foncee: Color)
    ensures
        final(image).same_size(*old(image)),
        forall|x: int, y: int|
            old(image).inside(x, y) ==> #[trigger] final(image).at(x, y) == threshold_color(
                old(image).at(x, y),
                couleur_claire,
                couleur_foncee,
            ),
        forall|x: int, y: int|
            old(image).inside(x, y) ==> #[trigger] final(image).at(x, y) == couleur_claire
                || final(image).at(x, y) == couleur_foncee,
{
    map_pixels(image, &Rule::Threshold { light: couleur_claire, dark: couleur_foncee });
}

/// Palette quantisation: every pixel becomes the entry of `palette` nearest
/// to it under the colour metric, the first of several equally near.
pub fn quantize_to(image: &mut Raster, palette: &Palette)
    ensures
        final(image).same_size(*old(image)),
        forall|x: int, y: int|
            old(image).inside(x, y) ==> #[trigger] final(image).at(x, y) == nearest_color(
                old(image).at(x, y),
                palette@,
            ),
        forall|x: int, y: int|
            old(image).inside(x, y) ==> palette@.contains(#[trigger] final(image).at(x, y)),
{
    let count = palette.len();
    map_pixels(image, &Rule::Nearest { palette });
    proof {
        assert forall|x: int, y: int| old(image).inside(x, y) implies palette@.contains(
            #[trigger] image.at(x, y),
        ) by {
            crate::palette::lemma_nearest_in_palette(old(image).at(x, y), palette@);
        }
    }
}

/// The first `n` built-in colours; all eight when `n` is larger.
pub open spec fn standard_prefix(n: int) -> Seq<Color> {
    standard_colors().take(if n <= 8 { n } else { 8 })
}

/// Palette quantisation to the first `n_couleurs` of the eight built-in
/// colours, and to all eight when `n_couleurs` is larger. A request for no
/// colour at all is rejected, and the raster is left as it was.
pub fn apply_palette(image: &mut Raster, n_couleurs: usize) -> (r: Result<(), PaletteError>)
    ensures
        n_couleurs == 0 <==> r == Err::<(), PaletteError>(PaletteError::Empty),
        r is Err ==> *final(image) == *old(image),
        r is Ok ==> final(image).same_size(*old(image)),
        r is Ok ==> forall|x: int, y: int|
            old(image).inside(x, y) ==> #[trigger] final(image).at(x, y) == nearest_color(
                old(image).at(x, y),
                standard_prefix(n_couleurs as int),
            ),
        r is Ok ==> forall|x: int, y: int|
            old(image).inside(x, y) ==> standard_prefix(n_couleurs as int).contains(
                #[trigger] final(image).at(x, y),
            ),
{
    match Palette::standard().first(n_couleurs) {
        Ok(palette) => {
            quantize_to(image, &palette);
            Ok(())
        },
        Err(e) => Err(e),
    }
}

/// The eight by eight Bayer matrix of thresholds.
pub fn bayer_matrix() -> (m: [[u8; 8]; 8])
    ensures
        forall|x: int, y: int|
            0 <= x < 8 && 0 <= y < 8 ==> #[trigger] m[y][x] == bayer_threshold(x, y),
{
    [
        [2, 130, 34, 162, 10, 138, 42, 170],
        [194, 66, 226, 98, 202, 74, 234, 106],
        [50, 178, 18, 146, 58, 186, 26, 154],
        [242, 114, 210, 82, 250, 122, 218, 90],
        [14, 142, 46, 174, 6, 134, 38, 166],
        [206, 78, 238, 110, 198, 70, 230, 102],
        [62, 190, 30, 158, 54, 182, 22, 150],
        [254, 126, 222, 94, 246, 118, 214, 86],
    ]
}

/// Ordered dithering with the given matrix of thresholds, tiled over the
/// raster: a pixel becomes white when it is at least as bright as the
/// threshold at its place, black otherwise.
pub fn apply_ordered(image: &mut Raster, matrix: &[[u8; 8]; 8])
    ensures
        final(image).same_size(*old(image)),
        forall|x: int, y: int|
            old(image).inside(x, y) ==> #[trigger] final(image).at(x, y) == ordered_color(
                *matrix,
                x,
                y,
                old(image).at(x, y),
            ),
{
    map_pixels(image, &Rule::Ordered { matrix });
}

/// Ordered dithering with the eight by eight Bayer matrix.
pub fn apply_bayer(image: &mut Raster)
    ensures
        final(image).same_size(*old(image)),
        forall|x: int, y: int|
            old(image).inside(x, y) ==> #[trigger] final(image).at(x, y) == if luminance(
                old(image).at(x, y),
            ) >= bayer_threshold(x % 8, y % 8) {
                white()
            } else {
                black()
            },
{
    let matrix = bayer_matrix();
    apply_ordered(image, &matrix);
}

/// Every other pixel becomes white: those whose coordinates have an even
/// sum. The others keep their colour.
pub fn passer_pixel_sur_deux_en_blanc(image: &mut Raster)
    ensures
        final(image).same_size(*old(image)),
        forall|x: int, y: int|
            old(image).inside(x, y) ==> #[trigger] final(image).at(x, y) == every_other_color(
                x,
                y,
                old(image).at(x, y),
            ),
{
    map_pixels(image, &Rule::EveryOther);
}

} // verus!
