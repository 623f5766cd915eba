use dithering::color::{luminosite, Color};
use dithering::diffusion::{
    apply_diffusion_erreur, apply_diffusion_erreur_floyd_steinberg,
    apply_diffusion_erreur_palette, apply_diffusion_matrice,
};
use dithering::kernel::{Kernel, Tap};
use dithering::palette::Palette;
use dithering::raster::Raster;

const BLACK: Color = Color { r: 0, g: 0, b: 0 };
const WHITE: Color = Color { r: 255, g: 255, b: 255 };

fn rgb(r: u8, g: u8, b: u8) -> Color {
    Color { r, g, b }
}

fn grey(v: u8) -> Color {
    rgb(v, v, v)
}

fn raster(width: u32, height: u32, pixels: &[Color]) -> Raster {
    Raster::from_pixels(width, height, &pixels.to_vec()).unwrap()
}

fn motley(width: u32, height: u32) -> Raster {
    let mut pixels = Vec::new();
    for y in 0..height {
        for x in 0..width {
            pixels.push(rgb((37 * x + 11 * y) as u8, (91 * y + 5 * x) as u8, (53 * x * y + 7) as u8));
        }
    }
    raster(width, height, &pixels)
}

fn in_palette(c: Color, p: &Palette) -> bool {
    (0..p.len()).any(|i| p.get(i) == Some(c))
}

/// The colour that the pixel at `probe` ends with when the only error in
/// the raster comes from a grey of level `source` at `(3, 0)`. Every other
/// pixel is `fill`, chosen so that it leaves no error of its own.
fn probed(kernel: &Kernel, source: u8, fill: Color, probe: (u32, u32), value: u8) -> Color {
    let (width, height) = (7u32, 4u32);
    let mut pixels = vec![fill; (width * height) as usize];
    pixels[3] = grey(source);
    pixels[(probe.1 * width + probe.0) as usize] = grey(value);
    let mut img = raster(width, height, &pixels);
    apply_diffusion_matrice(&mut img, &Palette::black_and_white(), kernel);
    assert_eq!(img.pixel(3, 0), Some(if source >= 128 { WHITE } else { BLACK }));
    img.pixel(probe.0, probe.1).unwrap()
}

/// Checks that the pixel at `(3 + dx, dy)` receives exactly `share` levels
/// of an error of 96 levels: it turns white from the level `128 - share` on.
fn receives(kernel: &Kernel, dx: i32, dy: u32, share: u8) {
    let probe = ((3 + dx) as u32, dy);
    assert_eq!(probed(kernel, 96, WHITE, probe, 128 - share), WHITE);
    assert_eq!(probed(kernel, 96, WHITE, probe, 127 - share), BLACK);
}

/// The same for an error of -96 levels, left by a grey of level 159 that
/// becomes white.
fn receives_negative(kernel: &Kernel, dx: i32, dy: u32, share: u8) {
    let probe = ((3 + dx) as u32, dy);
    assert_eq!(probed(kernel, 159, BLACK, probe, 128 + share), WHITE);
    assert_eq!(probed(kernel, 159, BLACK, probe, 127 + share), BLACK);
}

#[test]
fn floyd_steinberg_shares() {
    let k = Kernel::floyd_steinberg();
    receives(&k, 1, 0, 42);
    receives(&k, -1, 1, 18);
    receives(&k, 0, 1, 30);
    receives(&k, 1, 1, 6);
    assert_eq!(42 + 18 + 30 + 6, 96);
}

#[test]
fn floyd_steinberg_shares_of_a_negative_error() {
    let k = Kernel::floyd_steinberg();
    receives_negative(&k, 1, 0, 42);
    receives_negative(&k, -1, 1, 18);
    receives_negative(&k, 0, 1, 30);
    receives_negative(&k, 1, 1, 6);
}

#[test]
fn floyd_steinberg_reaches_no_other_pixel() {
    let k = Kernel::floyd_steinberg();
    for (dx, dy) in [(2, 0), (-2, 1), (2, 1), (0, 2), (-1, 2), (1, 2), (-3, 1), (3, 3)] {
        receives(&k, dx, dy, 0);
    }
}

#[test]
fn jarvis_shares() {
    let k = Kernel::jarvis();
    let expected = [
        (1, 0, 14),
        (2, 0, 10),
        (-2, 1, 6),
        (-1, 1, 10),
        (0, 1, 14),
        (1, 1, 10),
        (2, 1, 6),
        (-2, 2, 2),
        (-1, 2, 6),
        (0, 2, 10),
        (1, 2, 6),
        (2, 2, 2),
    ];
    for (dx, dy, share) in expected {
        receives(&k, dx, dy, share);
    }
    assert_eq!(expected.iter().map(|e| e.2 as u32).sum::<u32>(), 96);
    receives(&k, 3, 0, 0);
    receives(&k, 0, 3, 0);
}

#[test]
fn atkinson_shares() {
    let k = Kernel::atkinson();
    for (dx, dy) in [(1, 0), (2, 0), (-1, 1), (0, 1), (1, 1), (0, 2)] {
        receives(&k, dx, dy, 12);
    }
    for (dx, dy) in [(3, 0), (-2, 1), (2, 1), (-1, 2), (1, 2), (0, 3)] {
        receives(&k, dx, dy, 0);
    }
}

#[test]
fn halves_shares() {
    let k = Kernel::halves();
    receives(&k, 1, 0, 48);
    receives(&k, 0, 1, 48);
    receives(&k, 1, 1, 0);
    receives(&k, -1, 1, 0);
}

#[test]
fn chosen_kernel_shares() {
    let taps = vec![Tap { dx: 3, dy: 0, weight: 1 }, Tap { dx: -3, dy: 3, weight: 2 }];
    let k = Kernel::new(taps, 3).ok().unwrap();
    receives(&k, 3, 0, 32);
    receives(&k, -3, 3, 64);
    receives(&k, 1, 0, 0);
}

#[test]
fn taps_that_point_backward_change_nothing() {
    let forward = Kernel::new(vec![Tap { dx: 1, dy: 0, weight: 1 }], 2).ok().unwrap();
    let both = Kernel::new(
        vec![
            Tap { dx: -1, dy: 0, weight: 1 },
            Tap { dx: 1, dy: 0, weight: 1 },
            Tap { dx: 0, dy: -1, weight: 1 },
            Tap { dx: 0, dy: 0, weight: 1 },
        ],
        2,
    ).ok().unwrap();
    let mut a = motley(9, 6);
    let mut b = motley(9, 6);
    apply_diffusion_matrice(&mut a, &Palette::standard(), &forward);
    apply_diffusion_matrice(&mut b, &Palette::standard(), &both);
    assert_eq!(a.to_pixels(), b.to_pixels());
}

#[test]
fn two_taps_on_one_pixel_add_up() {
    let k = Kernel::new(
        vec![Tap { dx: 1, dy: 0, weight: 1 }, Tap { dx: 1, dy: 0, weight: 2 }],
        8,
    ).ok().unwrap();
    receives(&k, 1, 0, 36);
}

#[test]
fn the_last_column_drops_what_points_right() {
    // One column: of Floyd and Steinberg only the tap straight down is left.
    let k = Kernel::floyd_steinberg();
    for (value, expected) in [(98, WHITE), (97, BLACK)] {
        let mut img = raster(1, 2, &[grey(96), grey(value)]);
        apply_diffusion_matrice(&mut img, &Palette::black_and_white(), &k);
        assert_eq!(img.to_pixels(), vec![BLACK, expected]);
    }
}

#[test]
fn nothing_wraps_from_the_end_of_a_row_to_the_next() {
    // The error of (1, 0) reaches (0, 1) through the tap below left only:
    // 18 levels of 96, and not the 42 that point right.
    let k = Kernel::floyd_steinberg();
    for (value, expected) in [(110, WHITE), (109, BLACK)] {
        let mut img = raster(2, 2, &[WHITE, grey(96), grey(value), WHITE]);
        apply_diffusion_matrice(&mut img, &Palette::black_and_white(), &k);
        assert_eq!(img.pixel(0, 1), Some(expected));
    }
}

#[test]
fn the_last_row_drops_what_points_down() {
    let k = Kernel::floyd_steinberg();
    for (value, expected) in [(86, WHITE), (85, BLACK)] {
        let mut img = raster(2, 1, &[grey(96), grey(value)]);
        apply_diffusion_matrice(&mut img, &Palette::black_and_white(), &k);
        assert_eq!(img.to_pixels(), vec![BLACK, expected]);
    }
}

#[test]
fn a_single_pixel_is_its_nearest_colour() {
    for k in [Kernel::halves(), Kernel::floyd_steinberg(), Kernel::jarvis(), Kernel::atkinson()] {
        let mut img = raster(1, 1, &[rgb(200, 40, 30)]);
        apply_diffusion_matrice(&mut img, &Palette::standard(), &k);
        assert_eq!(img.to_pixels(), vec![rgb(255, 0, 0)]);
    }
}

#[test]
fn corrected_levels_are_clamped() {
    // White on white leaves no error, however much arrives.
    let mut img = raster(3, 1, &[grey(127), WHITE, grey(1)]);
    apply_diffusion_matrice(&mut img, &Palette::black_and_white(), &Kernel::halves());
    // 127 becomes black and sends 63.5 right; 255 + 63.5 is clamped to 255,
    // so that nothing goes on to the last pixel.
    assert_eq!(img.to_pixels(), vec![BLACK, WHITE, BLACK]);
    // Without the clamp 63.5 / 2 + 97 would pass the middle.
    let mut img = raster(3, 1, &[grey(127), WHITE, grey(97)]);
    apply_diffusion_matrice(&mut img, &Palette::black_and_white(), &Kernel::halves());
    assert_eq!(img.to_pixels(), vec![BLACK, WHITE, BLACK]);
}

#[test]
fn error_is_carried_per_channel() {
    // Red and black: the red channel alone carries error.
    let palette = Palette::new(vec![BLACK, rgb(255, 0, 0)]).unwrap();
    let mut img = raster(2, 1, &[rgb(96, 0, 0), rgb(80, 0, 0)]);
    apply_diffusion_matrice(&mut img, &palette, &Kernel::halves());
    assert_eq!(img.to_pixels(), vec![BLACK, rgb(255, 0, 0)]);
    let mut img = raster(2, 1, &[rgb(96, 0, 0), rgb(79, 0, 0)]);
    apply_diffusion_matrice(&mut img, &palette, &Kernel::halves());
    assert_eq!(img.to_pixels(), vec![BLACK, BLACK]);
    let mut img = raster(2, 1, &[rgb(0, 96, 0), rgb(80, 0, 0)]);
    apply_diffusion_matrice(&mut img, &palette, &Kernel::halves());
    assert_eq!(img.to_pixels(), vec![BLACK, BLACK]);
}

#[test]
fn error_fractions_are_kept() {
    // Three pixels of level 85 under halves: 85 -> black, 42.5 right;
    // 127.5 is not above the middle -> black, 63.75 right; 148.75 -> white.
    let mut img = raster(3, 1, &[grey(85), grey(85), grey(85)]);
    apply_diffusion_matrice(&mut img, &Palette::black_and_white(), &Kernel::halves());
    assert_eq!(img.to_pixels(), vec![BLACK, BLACK, WHITE]);
    // 85 then 86: 128.5 is above the middle.
    let mut img = raster(2, 1, &[grey(85), grey(86)]);
    apply_diffusion_matrice(&mut img, &Palette::black_and_white(), &Kernel::halves());
    assert_eq!(img.to_pixels(), vec![BLACK, WHITE]);
    // 85, 85, then 63: 63.75 + 63 = 126.75 -> black; 64: 127.75 -> white.
    let mut img = raster(3, 1, &[grey(85), grey(85), grey(63)]);
    apply_diffusion_matrice(&mut img, &Palette::black_and_white(), &Kernel::halves());
    assert_eq!(img.to_pixels(), vec![BLACK, BLACK, BLACK]);
    let mut img = raster(3, 1, &[grey(85), grey(85), grey(64)]);
    apply_diffusion_matrice(&mut img, &Palette::black_and_white(), &Kernel::halves());
    assert_eq!(img.to_pixels(), vec![BLACK, BLACK, WHITE]);
}

#[test]
fn diffusion_is_deterministic() {
    for k in [Kernel::halves(), Kernel::floyd_steinberg(), Kernel::jarvis(), Kernel::atkinson()] {
        let mut a = motley(23, 17);
        let mut b = motley(23, 17);
        apply_diffusion_matrice(&mut a, &Palette::standard(), &k);
        apply_diffusion_matrice(&mut b, &Palette::standard(), &k);
        assert_eq!(a.to_pixels(), b.to_pixels());
    }
    let mut a = motley(23, 17);
    let mut b = motley(23, 17);
    apply_diffusion_erreur(&mut a);
    apply_diffusion_erreur(&mut b);
    assert_eq!(a.to_pixels(), b.to_pixels());
}

#[test]
fn diffusion_stays_in_the_palette() {
    for n in 1..=8usize {
        let palette = Palette::standard().first(n).unwrap();
        for k in [Kernel::halves(), Kernel::floyd_steinberg(), Kernel::jarvis(), Kernel::atkinson()] {
            let mut img = motley(19, 13);
            apply_diffusion_matrice(&mut img, &palette, &k);
            assert_eq!((img.width(), img.height()), (19, 13));
            assert!(img.to_pixels().iter().all(|c| in_palette(*c, &palette)));
        }
        let mut img = motley(19, 13);
        apply_diffusion_erreur_palette(&mut img, &palette);
        assert!(img.to_pixels().iter().all(|c| in_palette(*c, &palette)));
        let mut img = motley(19, 13);
        apply_diffusion_erreur_floyd_steinberg(&mut img, &palette);
        assert!(img.to_pixels().iter().all(|c| in_palette(*c, &palette)));
    }
}

#[test]
fn palette_diffusion_uses_halves() {
    let mut a = motley(15, 15);
    let mut b = motley(15, 15);
    apply_diffusion_erreur_palette(&mut a, &Palette::standard());
    apply_diffusion_matrice(&mut b, &Palette::standard(), &Kernel::halves());
    assert_eq!(a.to_pixels(), b.to_pixels());
    let mut img = raster(2, 2, &[grey(96), grey(80), grey(79), WHITE]);
    apply_diffusion_erreur_palette(&mut img, &Palette::black_and_white());
    assert_eq!(img.to_pixels(), vec![BLACK, WHITE, BLACK, WHITE]);
}

#[test]
fn floyd_steinberg_diffusion_uses_its_kernel() {
    let mut a = motley(15, 15);
    let mut b = motley(15, 15);
    apply_diffusion_erreur_floyd_steinberg(&mut a, &Palette::standard());
    apply_diffusion_matrice(&mut b, &Palette::standard(), &Kernel::floyd_steinberg());
    assert_eq!(a.to_pixels(), b.to_pixels());
    let mut img = raster(2, 1, &[grey(96), grey(86)]);
    apply_diffusion_erreur_floyd_steinberg(&mut img, &Palette::black_and_white());
    assert_eq!(img.to_pixels(), vec![BLACK, WHITE]);
    let mut img = raster(2, 1, &[grey(96), grey(85)]);
    apply_diffusion_erreur_floyd_steinberg(&mut img, &Palette::black_and_white());
    assert_eq!(img.to_pixels(), vec![BLACK, BLACK]);
}

#[test]
fn the_kernels_differ() {
    // 96 sends 48 right under halves, 42 under Floyd and Steinberg, 14 under
    // Jarvis and 12 under Atkinson.
    let outcome = |k: &Kernel, value: u8| {
        let mut img = raster(2, 1, &[grey(96), grey(value)]);
        apply_diffusion_matrice(&mut img, &Palette::black_and_white(), k);
        img.pixel(1, 0).unwrap()
    };
    assert_eq!(outcome(&Kernel::halves(), 80), WHITE);
    assert_eq!(outcome(&Kernel::floyd_steinberg(), 80), BLACK);
    assert_eq!(outcome(&Kernel::floyd_steinberg(), 86), WHITE);
    assert_eq!(outcome(&Kernel::jarvis(), 113), BLACK);
    assert_eq!(outcome(&Kernel::jarvis(), 114), WHITE);
    assert_eq!(outcome(&Kernel::atkinson(), 115), BLACK);
    assert_eq!(outcome(&Kernel::atkinson(), 116), WHITE);
}

#[test]
fn binary_diffusion_two_pixels() {
    let mut img = raster(2, 1, &[grey(96), grey(80)]);
    apply_diffusion_erreur(&mut img);
    assert_eq!(img.to_pixels(), vec![BLACK, WHITE]);
    let mut img = raster(2, 1, &[grey(96), grey(79)]);
    apply_diffusion_erreur(&mut img);
    assert_eq!(img.to_pixels(), vec![BLACK, BLACK]);
    let mut img = raster(1, 2, &[grey(96), grey(80)]);
    apply_diffusion_erreur(&mut img);
    assert_eq!(img.to_pixels(), vec![BLACK, WHITE]);
}

#[test]
fn binary_diffusion_is_a_threshold_at_one_half() {
    // Alone, a pixel is white from luminance 128 on.
    for (value, expected) in [(0, BLACK), (127, BLACK), (128, WHITE), (255, WHITE)] {
        let mut img = raster(1, 1, &[grey(value)]);
        apply_diffusion_erreur(&mut img);
        assert_eq!(img.to_pixels(), vec![expected]);
    }
}

#[test]
fn binary_diffusion_goes_by_luminance() {
    // Red has luminance 54 and green 182: as the greys 54 and 182.
    let mut coloured = raster(2, 2, &[rgb(255, 0, 0), rgb(0, 255, 0), rgb(0, 255, 0), rgb(255, 0, 0)]);
    let mut greys = raster(2, 2, &[grey(54), grey(182), grey(182), grey(54)]);
    apply_diffusion_erreur(&mut coloured);
    apply_diffusion_erreur(&mut greys);
    assert_eq!(coloured.to_pixels(), greys.to_pixels());
    // 54 -> black, 27 right and down; 182 + 27 -> white, error -46, 23 down
    // (and right, out of the raster); 182 + 27 -> white, -23 right;
    // 54 - 23 - 23 = 8 -> black.
    assert_eq!(coloured.to_pixels(), vec![BLACK, WHITE, WHITE, BLACK]);
}

#[test]
fn binary_diffusion_gives_black_and_white_only() {
    let mut img = motley(21, 14);
    apply_diffusion_erreur(&mut img);
    assert_eq!((img.width(), img.height()), (21, 14));
    assert!(img.to_pixels().iter().all(|c| *c == BLACK || *c == WHITE));
}

#[test]
fn binary_diffusion_is_palette_diffusion_of_the_greys() {
    let source = motley(16, 12);
    let greys: Vec<Color> = source.to_pixels().iter().map(|c| grey(luminosite(c))).collect();
    let mut a = motley(16, 12);
    let mut b = raster(16, 12, &greys);
    apply_diffusion_erreur(&mut a);
    apply_diffusion_erreur_palette(&mut b, &Palette::black_and_white());
    assert_eq!(a.to_pixels(), b.to_pixels());
}

#[test]
fn diffusion_keeps_the_mean_of_a_flat_grey() {
    // A flat grey of level 64 is a quarter white; what leaves the raster at
    // its border is lost, so that a little less than a quarter comes out.
    let mut img = raster(64, 64, &vec![grey(64); 64 * 64]);
    apply_diffusion_matrice(&mut img, &Palette::black_and_white(), &Kernel::floyd_steinberg());
    let whites = img.to_pixels().iter().filter(|c| **c == WHITE).count();
    let expected = 64 * 64 * 64 / 255;
    assert!(whites <= expected + 1);
    assert!(whites + 64 >= expected);
}

#[test]
fn diffusion_of_an_empty_raster() {
    let mut img = raster(0, 3, &[]);
    apply_diffusion_matrice(&mut img, &Palette::standard(), &Kernel::jarvis());
    apply_diffusion_erreur(&mut img);
    assert_eq!((img.width(), img.height()), (0, 3));
}
