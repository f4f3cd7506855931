//! Images: the pixel buffer of the `image` crate, read and filled pixel by pixel.

use vstd::prelude::*;
use crate::color::Rgb;

verus! {

/// An image with 8-bit red, green and blue samples, held in an
/// `image::RgbImage`.
#[verifier::external_body]
pub struct Raster {
    image: image::RgbImage,
}

/// The width and the height that an image reports.
pub uninterp spec fn raster_dimensions(raster: Raster) -> (u32, u32);

/// The pixels that an image shows, row by row from the top, each as its
/// red, green and blue sample.
pub uninterp spec fn raster_pixels(raster: Raster) -> Seq<(u8, u8, u8)>;

/// `ImageBuffer::dimensions`: the width and the height of the image. An image
/// shows width times height pixels, and its three samples per pixel lie in
/// one `Vec<u8>`, which holds at most `isize::MAX` of them.
#[verifier::external_body]
fn dimensions(raster: &Raster) -> (size: (u32, u32))
    ensures
        size == raster_dimensions(*raster),
        raster_pixels(*raster).len() == size.0 * size.1,
        size.0 * size.1 * 3 <= isize::MAX,
{
    raster.image.dimensions()
}

/// `ImageBuffer::get_pixel`: the samples of the pixel in column `x` of row
/// `y`. It panics outside the image, which `requires` leaves out.
#[verifier::external_body]
fn get_pixel(raster: &Raster, x: u32, y: u32) -> (samples: (u8, u8, u8))
    requires
        x < raster_dimensions(*raster).0,
        y < raster_dimensions(*raster).1,
    ensures
        samples == raster_pixels(*raster)[y * raster_dimensions(*raster).0 + x],
{
    let pixel = raster.image.get_pixel(x, y);
    (pixel.0[0], pixel.0[1], pixel.0[2])
}

/// `ImageBuffer::put_pixel`: replaces the pixel in column `x` of row `y` and
/// leaves the size and every other pixel as they were. It panics outside the
/// image, which `requires` leaves out.
#[verifier::external_body]
fn put_pixel(raster: &mut Raster, x: u32, y: u32, samples: (u8, u8, u8))
    requires
        x < raster_dimensions(*old(raster)).0,
        y < raster_dimensions(*old(raster)).1,
    ensures
        raster_dimensions(*final(raster)) == raster_dimensions(*old(raster)),
        raster_pixels(*final(raster)) == raster_pixels(*old(raster)).update(
            y * raster_dimensions(*old(raster)).0 + x,
            samples,
        ),
{
    raster.image.put_pixel(x, y, image::Rgb([samples.0, samples.1, samples.2]));
}

/// `ImageBuffer::new`: an image of the given size whose samples are all
/// zero. It panics where the samples would not fit in a `Vec`, which
/// `requires` leaves out.
#[verifier::external_body]
fn blank(width: u32, height: u32) -> (raster: Raster)
    requires
        width * height * 3 <= isize::MAX,
    ensures
        raster_dimensions(raster) == (width, height),
        raster_pixels(raster) == Seq::new((width * height) as nat, |i: int| (0u8, 0u8, 0u8)),
{
    Raster { image: image::RgbImage::new(width, height) }
}

/// The colours of a row of samples.
pub open spec fn colors_of(samples: Seq<(u8, u8, u8)>) -> Seq<Rgb> {
    Seq::new(samples.len(), |i: int| Rgb { r: samples[i].0, g: samples[i].1, b: samples[i].2 })
}

impl Raster {
    /// The width of the image.
    pub open spec fn columns(&self) -> int {
        raster_dimensions(*self).0 as int
    }

    /// The height of the image.
    pub open spec fn rows(&self) -> int {
        raster_dimensions(*self).1 as int
    }

    /// The colours of the image's pixels, row by row from the top.
    pub open spec fn colors(&self) -> Seq<Rgb> {
        colors_of(raster_pixels(*self))
    }

    /// The width of the image in pixels.
    pub fn width(&self) -> (w: u32)
        ensures
            w == self.columns(),
    {
        dimensions(self).0
    }

    /// The height of the image in pixels.
    pub fn height(&self) -> (h: u32)
        ensures
            h == self.rows(),
    {
        dimensions(self).1
    }

    /// The width and the height of the image, whose pixels number the
    /// product of the two.
    pub fn size(&self) -> (size: (u32, u32))
        ensures
            size.0 == self.columns(),
            size.1 == self.rows(),
            self.colors().len() == size.0 * size.1,
            size.0 * size.1 * 3 <= isize::MAX,
    {
        dimensions(self)
    }

    /// The colour of the pixel in column `x` of row `y`, if the image has one there.
    pub fn pixel(&self, x: u32, y: u32) -> (found: Option<Rgb>)
        ensures
            found == if x < self.columns() && y < self.rows() {
                Some(self.colors()[y * self.columns() + x])
            } else {
                None
            },
    {
        let (w, h) = dimensions(self);
        if x < w && y < h {
            proof {
                assert(0 <= y * w + x < w * h) by (nonlinear_arith)
                    requires
                        0 <= x < w,
                        0 <= y < h,
                ;
            }
            let samples = get_pixel(self, x, y);
            Some(Rgb { r: samples.0, g: samples.1, b: samples.2 })
        } else {
            None
        }
    }

    /// An image without pixels.
    pub fn empty() -> (raster: Raster)
        ensures
            raster.columns() == 0,
            raster.rows() == 0,
            raster.colors() == Seq::<Rgb>::empty(),
    {
        let raster = blank(0, 0);
        assert(raster.colors() =~= Seq::<Rgb>::empty());
        raster
    }

    /// The image of the given size whose pixels are `pixels`, row by row.
    /// There is none where `pixels` is not `width * height` long, nor where
    /// three samples for each pixel are more than a `Vec` can hold.
    pub fn from_pixels(width: u32, height: u32, pixels: &Vec<Rgb>) -> (made: Option<Raster>)
        ensures
            made is Some <==> pixels.len() == width * height && width * height * 3 <= isize::MAX,
            made matches Some(raster) ==> {
                &&& raster.columns() == width
                &&& raster.rows() == height
                &&& raster.colors() == pixels@
            },
    {
        assert(width * height * 3 <= 0xFFFF_FFFF * 0xFFFF_FFFF * 3) by (nonlinear_arith)
            requires
                width <= 0xFFFF_FFFF,
                height <= 0xFFFF_FFFF,
        ;
        let count: u128 = width as u128 * height as u128;
        if pixels.len() as u128 != count || count * 3 > isize::MAX as u128 {
            return None;
        }
        let mut raster = blank(width, height);
        let mut y: u32 = 0;
        while y < height
            invariant
                y <= height,
                raster.columns() == width,
                raster.rows() == height,
                pixels.len() == width * height,
                raster.colors().len() == pixels.len(),
                forall|i: int| 0 <= i < y * width ==> #[trigger] raster.colors()[i] == pixels@[i],
            decreases height - y,
        {
            let mut x: u32 = 0;
            while x < width
                invariant
                    x <= width,
                    y < height,
                    raster.columns() == width,
                    raster.rows() == height,
                    pixels.len() == width * height,
                    raster.colors().len() == pixels.len(),
                    forall|i: int|
                        0 <= i < y * width + x ==> #[trigger] raster.colors()[i] == pixels@[i],
                decreases width - x,
            {
                assert(0 <= y * width + x < width * height) by (nonlinear_arith)
                    requires
                        0 <= x < width,
                        0 <= y < height,
                ;
                let color = pixels[y as usize * width as usize + x as usize];
                let ghost before = raster.colors();
                put_pixel(&mut raster, x, y, (color.r, color.g, color.b));
                assert(raster.colors() =~= before.update(y * width + x, color));
                x += 1;
            }
            proof {
                assert((y + 1) * width == y * width + width) by (nonlinear_arith);
            }
            y += 1;
        }
        assert(height * width == width * height) by (nonlinear_arith);
        assert(raster.colors() =~= pixels@);
        Some(raster)
    }

    /// The colours of the image's pixels, row by row from the top.
    pub fn to_pixels(&self) -> (pixels: Vec<Rgb>)
        ensures
            pixels@ == self.colors(),
    {
        let (width, height) = dimensions(self);
        let mut pixels: Vec<Rgb> = Vec::new();
        let mut y: u32 = 0;
        while y < height
            invariant
                y <= height,
                self.columns() == width,
                self.rows() == height,
                self.colors().len() == width * height,
                pixels.len() == y * width,
                forall|i: int| 0 <= i < y * width ==> #[trigger] pixels@[i] == self.colors()[i],
            decreases height - y,
        {
            let mut x: u32 = 0;
            while x < width
                invariant
                    x <= width,
                    y < height,
                    self.columns() == width,
                    self.rows() == height,
                    self.colors().len() == width * height,
                    pixels.len() == y * width + x,
                    forall|i: int|
                        0 <= i < y * width + x ==> #[trigger] pixels@[i] == self.colors()[i],
                decreases width - x,
            {
                assert(0 <= y * width + x < width * height) by (nonlinear_arith)
                    requires
                        0 <= x < width,
                        0 <= y < height,
                ;
                let samples = get_pixel(self, x, y);
                pixels.push(Rgb { r: samples.0, g: samples.1, b: samples.2 });
                x += 1;
            }
            proof {
                assert((y + 1) * width == y * width + width) by (nonlinear_arith);
            }
            y += 1;
        }
        assert(height * width == width * height) by (nonlinear_arith);
        assert(pixels@ =~= self.colors());
        pixels
    }
}

} // verus!
