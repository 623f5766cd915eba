//! The raster: an RGB image buffer, seen by the verified code as a grid of
//! colours with fixed dimensions.
//!
//! The buffer itself is an `image::RgbImage`. Nothing of its behaviour is
//! proved here: the four functions at the top of this file state what the
//! verified code relies on, and everything else in the crate is proved from
//! those statements.

use vstd::prelude::*;
use crate::color::Color;

verus! {

/// An RGB raster with eight bits per channel, held in an `image::RgbImage`.
///
/// The verifier sees none of its contents; `raster_dims` and `raster_pixels`
/// stand for them.
#[verifier::external_body]
pub struct Raster {
    inner: image::RgbImage,
}

/// Width and height of a raster, in pixels.
pub uninterp spec fn raster_dims(r: Raster) -> (nat, nat);

/// The colour at each coordinate `(x, y)` of a raster, `x` counting columns
/// from the left and `y` rows from the top.
pub uninterp spec fn raster_pixels(r: Raster) -> Map<(int, int), Color>;

/// The colour that a row-major buffer of RGB bytes holds for `(x, y)`.
pub open spec fn packed_pixel(data: Seq<u8>, width: nat, x: int, y: int) -> Color {
    let base = 3 * (y * width + x);
    Color { r: data[base], g: data[base + 1], b: data[base + 2] }
}

/// `image::ImageBuffer::from_raw` for `Rgb<u8>` pixels over a `Vec<u8>`.
///
/// The buffer is accepted exactly when it holds at least three bytes for each
/// of the `width * height` pixels; pixel `(x, y)` is then read from the three
/// bytes that start at `3 * (y * width + x)`.
#[verifier::external_body]
fn buffer_from_raw(width: u32, height: u32, data: Vec<u8>) -> (r: Option<Raster>)
    ensures
        r is Some <==> 3 * width * height <= data@.len(),
        r matches Some(img) ==> raster_dims(img) == (width as nat, height as nat)
            && forall|x: int, y: int|
                0 <= x < width && 0 <= y < height ==> #[trigger] raster_pixels(img)[(x, y)]
                    == packed_pixel(data@, width as nat, x, y),
{
    match image::RgbImage::from_raw(width, height, data) {
        Some(inner) => Some(Raster { inner }),
        None => None,
    }
}

/// `image::ImageBuffer::dimensions`: the width and the height.
#[verifier::external_body]
pub(crate) fn dimensions(img: &Raster) -> (d: (u32, u32))
    ensures
        (d.0 as nat, d.1 as nat) == raster_dims(*img),
{
    img.inner.dimensions()
}

/// `image::ImageBuffer::get_pixel`, which panics outside the bounds: the
/// colour stored at `(x, y)`.
#[verifier::external_body]
pub(crate) fn get_pixel(img: &Raster, x: u32, y: u32) -> (c: Color)
    requires
        x < raster_dims(*img).0,
        y < raster_dims(*img).1,
    ensures
        c == raster_pixels(*img)[(x as int, y as int)],
{
    let p = img.inner.get_pixel(x, y);
    Color { r: p.0[0], g: p.0[1], b: p.0[2] }
}

/// `image::ImageBuffer::put_pixel`, which panics outside the bounds: the
/// pixel at `(x, y)` becomes `c`, every other pixel and the dimensions stay.
#[verifier::external_body]
pub(crate) fn put_pixel(img: &mut Raster, x: u32, y: u32, c: Color)
    requires
        x < raster_dims(*old(img)).0,
        y < raster_dims(*old(img)).1,
    ensures
        raster_dims(*final(img)) == raster_dims(*old(img)),
        raster_pixels(*final(img)) == raster_pixels(*old(img)).insert((x as int, y as int), c),
{
    img.inner.put_pixel(x, y, image::Rgb([c.r, c.g, c.b]));
}

/// Scan order: `(x1, y1)` is processed before `(x2, y2)` when it lies in an
/// earlier row, or in the same row further left.
pub open spec fn precedes(x1: int, y1: int, x2: int, y2: int) -> bool {
    y1 < y2 || (y1 == y2 && x1 < x2)
}

/// Row-major position of `(x, y)` in a grid `width` wide lies inside a grid
/// of `width * height` cells.
pub proof fn lemma_row_major_in_range(x: int, y: int, width: int, height: int)
    requires
        0 <= x < width,
        0 <= y < height,
    ensures
        0 <= y * width + x < width * height,
{
    assert(0 <= y * width) by (nonlinear_arith)
        requires
            0 <= y,
            0 <= width,
    ;
    assert((y + 1) * width <= height * width) by (nonlinear_arith)
        requires
            y + 1 <= height,
            0 <= width,
    ;
    assert((y + 1) * width == y * width + width) by (nonlinear_arith);
    assert(height * width == width * height) by (nonlinear_arith);
}

impl Raster {
    /// Number of columns.
    pub open spec fn spec_width(&self) -> nat {
        raster_dims(*self).0
    }

    /// Number of rows.
    pub open spec fn spec_height(&self) -> nat {
        raster_dims(*self).1
    }

    /// Whether `(x, y)` names a pixel of this raster.
    pub open spec fn inside(&self, x: int, y: int) -> bool {
        0 <= x < self.spec_width() && 0 <= y < self.spec_height()
    }

    /// The colour of the pixel at `(x, y)`.
    pub open spec fn at(&self, x: int, y: int) -> Color {
        raster_pixels(*self)[(x, y)]
    }

    /// Whether two rasters have the same width and the same height.
    pub open spec fn same_size(&self, other: Raster) -> bool {
        raster_dims(*self) == raster_dims(other)
    }

    /// Builds a raster from its pixels in row-major order (left to right,
    /// then top to bottom). Fails when the number of pixels is not
    /// `width * height`.
    pub fn from_pixels(width: u32, height: u32, pixels: &Vec<Color>) -> (r: Option<Raster>)
        ensures
            r is Some <==> pixels@.len() == width * height,
            r matches Some(img) ==> img.spec_width() == width && img.spec_height() == height
                && forall|x: int, y: int|
                    img.inside(x, y) ==> #[trigger] img.at(x, y) == pixels@[y * width + x],
    {
        assert(width * height <= 0xffff_ffff * 0xffff_ffff) by (nonlinear_arith)
            requires
                width <= 0xffff_ffff,
                height <= 0xffff_ffff,
        ;
        let count: u64 = (width as u64) * (height as u64);
        let n: usize = pixels.len();
        if n as u64 != count {
            return None;
        }
        let mut data: Vec<u8> = Vec::new();
        let mut i: usize = 0;
        while i < n
            invariant
                n == pixels@.len(),
                i <= n,
                data@.len() == 3 * i,
                forall|k: int|
                    0 <= k < i ==> data@[3 * k] == (#[trigger] pixels@[k]).r && data@[3 * k + 1]
                        == pixels@[k].g && data@[3 * k + 2] == pixels@[k].b,
            decreases n - i,
        {
            let c = pixels[i];
            data.push(c.r);
            data.push(c.g);
            data.push(c.b);
            i += 1;
        }
        let ghost bytes = data@;
        let r = buffer_from_raw(width, height, data);
        proof {
            assert(3 * width * height == 3 * (width * height)) by (nonlinear_arith);
            assert(r is Some);
            let img = r->0;
            assert forall|x: int, y: int| img.inside(x, y) implies #[trigger] img.at(x, y)
                == pixels@[y * width + x] by {
                lemma_row_major_in_range(x, y, width as int, height as int);
                let k = y * width + x;
                assert(pixels@[k].r == bytes[3 * k]);
                assert(raster_pixels(img)[(x, y)] == packed_pixel(bytes, width as nat, x, y));
            }
        }
        r
    }

    /// The pixels in row-major order (left to right, then top to bottom).
    pub fn to_pixels(&self) -> (pixels: Vec<Color>)
        ensures
            pixels@.len() == self.spec_width() * self.spec_height(),
            forall|x: int, y: int|
                self.inside(x, y) ==> pixels@[y * self.spec_width() + x] == #[trigger] self.at(
                    x,
                    y,
                ),
    {
        let (w, h) = dimensions(self);
        let mut pixels: Vec<Color> = Vec::new();
        let mut y: u32 = 0;
        while y < h
            invariant
                raster_dims(*self) == (w as nat, h as nat),
                y <= h,
                pixels@.len() == y * w,
                forall|i: int, j: int|
                    0 <= i < w && 0 <= j < y ==> pixels@[j * w + i] == #[trigger] self.at(i, j),
            decreases h - y,
        {
            let mut x: u32 = 0;
            while x < w
                invariant
                    raster_dims(*self) == (w as nat, h as nat),
                    y < h,
                    x <= w,
                    pixels@.len() == y * w + x,
                    forall|i: int, j: int|
                        0 <= i < w && 0 <= j < y ==> pixels@[j * w + i] == #[trigger] self.at(
                            i,
                            j,
                        ),
                    forall|i: int|
                        0 <= i < x ==> pixels@[y * w + i] == #[trigger] self.at(i, y as int),
                decreases w - x,
            {
                let c = get_pixel(self, x, y);
                let ghost before = pixels@;
                pixels.push(c);
                proof {
                    assert forall|i: int, j: int| 0 <= i < w && 0 <= j < y implies pixels@[j * w
                        + i] == #[trigger] self.at(i, j) by {
                        lemma_row_major_in_range(i, j, w as int, y as int);
                        assert(w * y == y * w) by (nonlinear_arith);
                        assert(before[j * w + i] == self.at(i, j));
                    }
                }
                x += 1;
            }
            proof {
                assert((y + 1) * w == y * w + w) by (nonlinear_arith);
            }
            y += 1;
        }
        proof {
            assert(h * w == w * h) by (nonlinear_arith);
        }
        pixels
    }

    /// Number of columns.
    pub fn width(&self) -> (w: u32)
        ensures
            w == self.spec_width(),
    {
        dimensions(self).0
    }

    /// Number of rows.
    pub fn height(&self) -> (h: u32)
        ensures
            h == self.spec_height(),
    {
        dimensions(self).1
    }

    /// The colour at `(x, y)`, or `None` outside the raster.
    pub fn pixel(&self, x: u32, y: u32) -> (c: Option<Color>)
        ensures
            c == if self.inside(x as int, y as int) {
                Some(self.at(x as int, y as int))
            } else {
                None
            },
    {
        let (w, h) = dimensions(self);
        if x < w && y < h {
            Some(get_pixel(self, x, y))
        } else {
            None
        }
    }
}

} // verus!
