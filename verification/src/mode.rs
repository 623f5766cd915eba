//! The transforms under one roof: a mode names one of them with its
//! parameters, and `apply_mode` runs it.

use vstd::prelude::*;
use crate::color::{black, luminance, white, Color};
use crate::diffusion::{
    apply_diffusion_erreur, apply_diffusion_matrice, binary_diffusion_of, diffusion_of,
    lemma_diffusion_deterministic,
};
use crate::kernel::{floyd_steinberg, halves, kernel_named, Kernel, KernelName};
use crate::palette::{nearest_color, standard_colors, Palette, PaletteError};
use crate::pointwise::{
    apply_bayer, apply_palette, apply_seuil, bayer_threshold, every_other_color,
    passer_pixel_sur_deux_en_blanc, standard_prefix, threshold_color,
};
use crate::raster::Raster;
use crate::tramage::{apply_tramage, dithered_with};

verus! {

/// A transform and its parameters.
#[derive(Clone, Copy, Debug, PartialEq, Eq, Structural)]
pub enum Mode {
    /// Threshold with a light and a dark colour.
    Seuil { couleur_claire: Color, couleur_foncee: Color },
    /// Quantisation to the first `n_couleurs` built-in colours.
    Palette { n_couleurs: usize },
    /// Random dithering with the noise scale `seuil`, in units of 1/65536.
    Tramage { seuil: u32 },
    /// Ordered dithering with the Bayer matrix.
    Ordonne,
    /// Whitening of every other pixel.
    Blanchir,
    /// Binary error diffusion.
    Diffusion,
    /// Error diffusion to the built-in colours, half right and half down.
    DiffusionPalette,
    /// Error diffusion to the built-in colours, Floyd and Steinberg.
    DiffusionFloydSteinberg,
    /// Error diffusion to the built-in colours with a kernel chosen by name.
    DiffusionMatrice { matrice: KernelName },
}

/// The colour that a mode gives the pixel `(x, y)` of `before`, for every
/// mode but random dithering.
pub open spec fn expected(mode: Mode, before: Raster, x: int, y: int) -> Color {
    let c = before.at(x, y);
    match mode {
        Mode::Seuil { couleur_claire, couleur_foncee } => threshold_color(
            c,
            couleur_claire,
            couleur_foncee,
        ),
        Mode::Palette { n_couleurs } => nearest_color(c, standard_prefix(n_couleurs as int)),
        Mode::Tramage { seuil } => c,
        Mode::Ordonne => if luminance(c) >= bayer_threshold(x % 8, y % 8) {
            white()
        } else {
            black()
        },
        Mode::Blanchir => every_other_color(x, y, c),
        Mode::Diffusion => binary_diffusion_of(before).quantized(x, y),
        Mode::DiffusionPalette => diffusion_of(before, standard_colors(), halves()).quantized(x, y),
        Mode::DiffusionFloydSteinberg => diffusion_of(
            before,
            standard_colors(),
            floyd_steinberg(),
        ).quantized(x, y),
        Mode::DiffusionMatrice { matrice } => diffusion_of(
            before,
            standard_colors(),
            kernel_named(matrice),
        ).quantized(x, y),
    }
}

/// Whether `after` is what a mode makes of `before`.
pub open spec fn outcome(mode: Mode, before: Raster, after: Raster) -> bool {
    &&& after.same_size(before)
    &&& match mode {
        Mode::Tramage { seuil } => exists|bits: Map<(int, int), u32>|
            dithered_with(before, after, seuil, bits),
        _ => forall|x: int, y: int|
            before.inside(x, y) ==> #[trigger] after.at(x, y) == expected(mode, before, x, y),
    }
}

/// Determinism. Every mode but random dithering makes of a raster a raster
/// that depends on nothing but the size and the colours of the first and on
/// the parameters of the mode: from two rasters of the same size with the
/// same colours, the same mode makes two rasters of the same size with the
/// same colours.
pub proof fn lemma_mode_deterministic(
    mode: Mode,
    first: Raster,
    first_out: Raster,
    second: Raster,
    second_out: Raster,
)
    requires
        !(mode is Tramage),
        first.same_size(second),
        forall|x: int, y: int| first.inside(x, y) ==> #[trigger] first.at(x, y) == second.at(x, y),
        outcome(mode, first, first_out),
        outcome(mode, second, second_out),
    ensures
        first_out.same_size(second_out),
        forall|x: int, y: int|
            first_out.inside(x, y) ==> #[trigger] first_out.at(x, y) == second_out.at(x, y),
{
    assert forall|x: int, y: int| first_out.inside(x, y) implies #[trigger] first_out.at(x, y)
        == second_out.at(x, y) by {
        assert(first.at(x, y) == second.at(x, y));
        lemma_expected_deterministic(mode, first, second, x, y);
    }
}

/// The colour that a mode gives a pixel is the same for two rasters of the
/// same size with the same colours.
pub proof fn lemma_expected_deterministic(mode: Mode, first: Raster, second: Raster, x: int, y: int)
    requires
        first.same_size(second),
        forall|i: int, j: int| first.inside(i, j) ==> #[trigger] first.at(i, j) == second.at(i, j),
        first.inside(x, y),
    ensures
        expected(mode, first, x, y) == expected(mode, second, x, y),
{
    assert(first.at(x, y) == second.at(x, y));
    match mode {
        Mode::Diffusion => {
            let a = binary_diffusion_of(first);
            let b = binary_diffusion_of(second);
            assert forall|i: int, j: int| a.inside(i, j) implies #[trigger] a.source[(i, j)]
                == b.source[(i, j)] by {
                assert(first.at(i, j) == second.at(i, j));
            }
            a.lemma_same_corrected(b, x, y);
        },
        Mode::DiffusionPalette => {
            lemma_diffusion_deterministic(first, second, standard_colors(), halves(), x, y);
        },
        Mode::DiffusionFloydSteinberg => {
            lemma_diffusion_deterministic(
                first,
                second,
                standard_colors(),
                floyd_steinberg(),
                x,
                y,
            );
        },
        Mode::DiffusionMatrice { matrice } => {
            lemma_diffusion_deterministic(
                first,
                second,
                standard_colors(),
                kernel_named(matrice),
                x,
                y,
            );
        },
        _ => {},
    }
}

/// Runs the transform that `mode` names on `image`. The one request that is
/// rejected is a palette of no colour at all, which leaves the raster as it
/// was.
pub fn apply_mode(image: &mut Raster, mode: &Mode) -> (r: Result<(), PaletteError>)
    ensures
        r == Err::<(), PaletteError>(PaletteError::Empty) <==> *mode == (Mode::Palette {
            n_couleurs: 0,
        }),
        r is Err ==> *final(image) == *old(image),
        r is Ok ==> outcome(*mode, *old(image), *final(image)),
{
    match mode {
        Mode::Seuil { couleur_claire, couleur_foncee } => {
            apply_seuil(image, *couleur_claire, *couleur_foncee);
            Ok(())
        },
        Mode::Palette { n_couleurs } => apply_palette(image, *n_couleurs),
        Mode::Tramage { seuil } => {
            apply_tramage(image, *seuil);
            Ok(())
        },
        Mode::Ordonne => {
            apply_bayer(image);
            Ok(())
        },
        Mode::Blanchir => {
            passer_pixel_sur_deux_en_blanc(image);
            Ok(())
        },
        Mode::Diffusion => {
            apply_diffusion_erreur(image);
            Ok(())
        },
        Mode::DiffusionPalette => {
            apply_diffusion_matrice(image, &Palette::standard(), &Kernel::halves());
            Ok(())
        },
        Mode::DiffusionFloydSteinberg => {
            apply_diffusion_matrice(image, &Palette::standard(), &Kernel::floyd_steinberg());
            Ok(())
        },
        Mode::DiffusionMatrice { matrice } => {
            apply_diffusion_matrice(image, &Palette::standard(), &matrice.kernel());
            Ok(())
        },
    }
}

} // verus!
