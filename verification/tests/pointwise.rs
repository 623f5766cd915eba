use dithering::color::{luminosite, Color};
use dithering::palette::{Palette, PaletteError};
use dithering::pointwise::{
    apply_bayer, apply_ordered, apply_palette, apply_seuil, bayer_matrix,
    passer_pixel_sur_deux_en_blanc, quantize_to,
};
use dithering::raster::Raster;

const BLACK: Color = Color { r: 0, g: 0, b: 0 };
const WHITE: Color = Color { r: 255, g: 255, b: 255 };

fn rgb(r: u8, g: u8, b: u8) -> Color {
    Color { r, g, b }
}

fn grey(v: u8) -> Color {
    rgb(v, v, v)
}

fn raster(width: u32, height: u32, pixels: &[Color]) -> Raster {
    Raster::from_pixels(width, height, &pixels.to_vec()).unwrap()
}

/// A raster with many different colours.
fn motley(width: u32, height: u32) -> Raster {
    let mut pixels = Vec::new();
    for y in 0..height {
        for x in 0..width {
            pixels.push(rgb((37 * x + 11 * y) as u8, (91 * y + 5 * x) as u8, (53 * x * y + 7) as u8));
        }
    }
    raster(width, height, &pixels)
}

#[test]
fn threshold_two_by_two() {
    let mut img = raster(2, 2, &[grey(200), grey(50), grey(50), grey(200)]);
    apply_seuil(&mut img, WHITE, BLACK);
    assert_eq!(img.to_pixels(), vec![WHITE, BLACK, BLACK, WHITE]);
}

#[test]
fn threshold_is_at_128() {
    let mut img = raster(4, 1, &[grey(127), grey(128), grey(0), grey(255)]);
    apply_seuil(&mut img, WHITE, BLACK);
    assert_eq!(img.to_pixels(), vec![BLACK, WHITE, BLACK, WHITE]);
}

#[test]
fn threshold_goes_by_luminance() {
    // Green is bright (182), red and blue are not (54 and 18).
    let mut img = raster(3, 1, &[rgb(255, 0, 0), rgb(0, 255, 0), rgb(0, 0, 255)]);
    apply_seuil(&mut img, WHITE, BLACK);
    assert_eq!(img.to_pixels(), vec![BLACK, WHITE, BLACK]);
}

#[test]
fn threshold_with_chosen_colours() {
    let light = rgb(255, 0, 0);
    let dark = rgb(0, 0, 255);
    let mut img = raster(2, 2, &[grey(200), grey(50), grey(50), grey(200)]);
    apply_seuil(&mut img, light, dark);
    assert_eq!(img.to_pixels(), vec![light, dark, dark, light]);
}

#[test]
fn threshold_gives_only_the_two_colours() {
    let light = rgb(1, 2, 3);
    let dark = rgb(200, 100, 0);
    let mut img = motley(13, 9);
    let before = img.to_pixels();
    apply_seuil(&mut img, light, dark);
    let after = img.to_pixels();
    assert_eq!(after.len(), before.len());
    for (old, new) in before.iter().zip(after.iter()) {
        assert!(*new == light || *new == dark);
        assert_eq!(*new == light, luminosite(old) >= 128);
    }
    assert_eq!((img.width(), img.height()), (13, 9));
}

#[test]
fn threshold_is_deterministic() {
    let mut a = motley(8, 8);
    let mut b = motley(8, 8);
    apply_seuil(&mut a, WHITE, BLACK);
    apply_seuil(&mut b, WHITE, BLACK);
    assert_eq!(a.to_pixels(), b.to_pixels());
}

#[test]
fn palette_of_two_is_black_and_white() {
    let mut img = raster(4, 1, &[grey(10), grey(240), rgb(255, 0, 0), rgb(0, 255, 0)]);
    assert_eq!(apply_palette(&mut img, 2), Ok(()));
    // Red is nearer to black (65025) than to white (130050), and so is green.
    assert_eq!(img.to_pixels(), vec![BLACK, WHITE, BLACK, BLACK]);
}

#[test]
fn palette_of_three_knows_red() {
    let mut img = raster(3, 1, &[rgb(200, 30, 30), rgb(0, 255, 0), grey(240)]);
    assert_eq!(apply_palette(&mut img, 3), Ok(()));
    assert_eq!(img.to_pixels(), vec![rgb(255, 0, 0), BLACK, WHITE]);
}

#[test]
fn palette_stays_in_the_palette() {
    for n in 1..=8usize {
        let allowed = Palette::standard().first(n).unwrap();
        let mut img = motley(11, 7);
        assert_eq!(apply_palette(&mut img, n), Ok(()));
        for c in img.to_pixels() {
            assert!((0..allowed.len()).any(|i| allowed.get(i) == Some(c)));
        }
    }
}

#[test]
fn palette_request_is_clamped() {
    let mut eight = motley(9, 9);
    let mut many = motley(9, 9);
    let mut huge = motley(9, 9);
    assert_eq!(apply_palette(&mut eight, 8), Ok(()));
    assert_eq!(apply_palette(&mut many, 9), Ok(()));
    assert_eq!(apply_palette(&mut huge, usize::MAX), Ok(()));
    assert_eq!(eight.to_pixels(), many.to_pixels());
    assert_eq!(eight.to_pixels(), huge.to_pixels());
}

#[test]
fn palette_of_none_is_rejected() {
    let mut img = motley(5, 5);
    let before = img.to_pixels();
    assert_eq!(apply_palette(&mut img, 0), Err(PaletteError::Empty));
    assert_eq!(img.to_pixels(), before);
}

#[test]
fn quantize_to_a_chosen_palette() {
    let palette = Palette::new(vec![rgb(100, 0, 0), rgb(0, 100, 0), rgb(0, 0, 100)]).unwrap();
    let mut img = raster(3, 1, &[rgb(10, 200, 30), rgb(0, 0, 0), rgb(90, 90, 200)]);
    quantize_to(&mut img, &palette);
    // Black is equally far from the three: the first wins.
    assert_eq!(img.to_pixels(), vec![rgb(0, 100, 0), rgb(100, 0, 0), rgb(0, 0, 100)]);
}

#[test]
fn quantize_is_deterministic() {
    let mut a = motley(8, 8);
    let mut b = motley(8, 8);
    quantize_to(&mut a, &Palette::standard());
    quantize_to(&mut b, &Palette::standard());
    assert_eq!(a.to_pixels(), b.to_pixels());
}

#[test]
fn bayer_matrix_values() {
    let m = bayer_matrix();
    assert_eq!(m[0], [2, 130, 34, 162, 10, 138, 42, 170]);
    assert_eq!(m[1][0], 194);
    assert_eq!(m[7][0], 254);
    assert_eq!(m[4][4], 6);
    // The ranks 0 to 63 each occur once.
    let mut seen = [false; 64];
    for row in m.iter() {
        for t in row.iter() {
            assert_eq!((t - 2) % 4, 0);
            seen[((t - 2) / 4) as usize] = true;
        }
    }
    assert!(seen.iter().all(|s| *s));
}

#[test]
fn bayer_on_mid_grey_whitens_half() {
    let mut img = raster(8, 8, &vec![grey(128); 64]);
    apply_bayer(&mut img);
    let out = img.to_pixels();
    assert!(out.iter().all(|c| *c == WHITE || *c == BLACK));
    assert_eq!(out.iter().filter(|c| **c == WHITE).count(), 32);
    // The first row of thresholds is 2 130 34 162 10 138 42 170.
    assert_eq!(out[..8], [WHITE, BLACK, WHITE, BLACK, WHITE, BLACK, WHITE, BLACK]);
}

#[test]
fn bayer_keeps_black_and_white() {
    let mut dark = raster(16, 16, &vec![BLACK; 256]);
    apply_bayer(&mut dark);
    assert!(dark.to_pixels().iter().all(|c| *c == BLACK));
    let mut light = raster(16, 16, &vec![WHITE; 256]);
    apply_bayer(&mut light);
    assert!(light.to_pixels().iter().all(|c| *c == WHITE));
}

#[test]
fn bayer_tiles_the_matrix() {
    let mut img = raster(20, 11, &vec![grey(100); 220]);
    apply_bayer(&mut img);
    let m = bayer_matrix();
    for y in 0..11u32 {
        for x in 0..20u32 {
            let expected = if 100 >= m[(y % 8) as usize][(x % 8) as usize] { WHITE } else { BLACK };
            assert_eq!(img.pixel(x, y), Some(expected));
        }
    }
}

#[test]
fn ordered_with_a_chosen_matrix() {
    let mut m = [[255u8; 8]; 8];
    m[0][0] = 0;
    m[1][2] = 50;
    let mut img = raster(3, 2, &[grey(0), grey(254), grey(254), grey(254), grey(255), grey(49)]);
    apply_ordered(&mut img, &m);
    assert_eq!(img.to_pixels(), vec![WHITE, BLACK, BLACK, BLACK, WHITE, BLACK]);
    let mut img = raster(3, 2, &[grey(0), grey(0), grey(0), grey(0), grey(0), grey(50)]);
    apply_ordered(&mut img, &m);
    assert_eq!(img.to_pixels(), vec![WHITE, BLACK, BLACK, BLACK, BLACK, WHITE]);
}

#[test]
fn ordered_is_deterministic() {
    let mut a = motley(17, 9);
    let mut b = motley(17, 9);
    apply_bayer(&mut a);
    apply_bayer(&mut b);
    assert_eq!(a.to_pixels(), b.to_pixels());
}

#[test]
fn every_other_pixel_becomes_white() {
    let c = rgb(9, 8, 7);
    let mut img = raster(3, 3, &vec![c; 9]);
    passer_pixel_sur_deux_en_blanc(&mut img);
    assert_eq!(img.to_pixels(), vec![WHITE, c, WHITE, c, WHITE, c, WHITE, c, WHITE]);
}

#[test]
fn transforms_of_an_empty_raster() {
    let mut img = raster(0, 0, &[]);
    apply_seuil(&mut img, WHITE, BLACK);
    assert_eq!(apply_palette(&mut img, 4), Ok(()));
    apply_bayer(&mut img);
    passer_pixel_sur_deux_en_blanc(&mut img);
    assert_eq!(img.to_pixels(), Vec::new());
}
