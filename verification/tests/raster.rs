use dithering::color::Color;
use dithering::raster::Raster;

fn rgb(r: u8, g: u8, b: u8) -> Color {
    Color { r, g, b }
}

fn numbered(width: u32, height: u32) -> Vec<Color> {
    let mut pixels = Vec::new();
    for y in 0..height {
        for x in 0..width {
            pixels.push(rgb(x as u8, y as u8, (10 * y + x) as u8));
        }
    }
    pixels
}

#[test]
fn from_pixels_then_to_pixels() {
    let pixels = numbered(3, 2);
    let img = Raster::from_pixels(3, 2, &pixels).unwrap();
    assert_eq!(img.to_pixels(), pixels);
    assert_eq!(img.width(), 3);
    assert_eq!(img.height(), 2);
}

#[test]
fn pixels_are_row_major() {
    let img = Raster::from_pixels(3, 2, &numbered(3, 2)).unwrap();
    assert_eq!(img.pixel(0, 0), Some(rgb(0, 0, 0)));
    assert_eq!(img.pixel(2, 0), Some(rgb(2, 0, 2)));
    assert_eq!(img.pixel(0, 1), Some(rgb(0, 1, 10)));
    assert_eq!(img.pixel(2, 1), Some(rgb(2, 1, 12)));
}

#[test]
fn pixel_outside_is_none() {
    let img = Raster::from_pixels(3, 2, &numbered(3, 2)).unwrap();
    assert_eq!(img.pixel(3, 0), None);
    assert_eq!(img.pixel(0, 2), None);
    assert_eq!(img.pixel(u32::MAX, u32::MAX), None);
}

#[test]
fn wrong_number_of_pixels_is_rejected() {
    assert!(Raster::from_pixels(3, 2, &numbered(3, 1)).is_none());
    assert!(Raster::from_pixels(3, 2, &numbered(4, 2)).is_none());
    assert!(Raster::from_pixels(1, 1, &Vec::new()).is_none());
    assert!(Raster::from_pixels(u32::MAX, u32::MAX, &numbered(1, 1)).is_none());
}

#[test]
fn empty_rasters() {
    let none: Vec<Color> = Vec::new();
    let flat = Raster::from_pixels(5, 0, &none).unwrap();
    assert_eq!((flat.width(), flat.height()), (5, 0));
    assert_eq!(flat.to_pixels(), none);
    let thin = Raster::from_pixels(0, 7, &none).unwrap();
    assert_eq!((thin.width(), thin.height()), (0, 7));
    assert_eq!(thin.pixel(0, 0), None);
}
