//! The converter: an image, a palette and a kernel, and the passes that
//! turn the image into one that uses the palette alone.

use vstd::prelude::*;
use crate::color::Rgb;
use crate::diffusion::{diffuse, diffusion_image, share_limit, tones, truncate_all};
use crate::encode::{userdata_of, userdata_text};
use crate::error::DitherError;
use crate::kernel::{Offset, Weight};
use crate::ordered::{ordered_dither, ordered_image};
use crate::raster::Raster;

verus! {

/// An image to convert, the palette and the kernel to convert it with, and
/// the converted image once a pass has run.
pub struct Converter {
    /// The image as it was read.
    pub image_org: Raster,
    /// The image that the last pass made.
    pub image_converted: Raster,
    /// The colours that the converted image may use.
    pub palette: Vec<Rgb>,
    /// The kernel of the error diffusion.
    pub offsets: Vec<Offset>,
    /// The width of the image that was read.
    pub width: u32,
    /// The height of the image that was read.
    pub height: u32,
}

/// The palette that stands in where none could be loaded: black alone.
pub open spec fn fallback_palette() -> Seq<Rgb> {
    seq![Rgb { r: 0, g: 0, b: 0 }]
}

/// The kernel that stands in where none could be loaded: one entry that
/// hands on nothing.
pub open spec fn fallback_offsets() -> Seq<Offset> {
    seq![Offset { dx: 0, dy: 0, weight: Weight { mantissa: 0, exponent: 0 } }]
}

impl Default for Converter {
    /// A converter without an image, palette or kernel.
    fn default() -> (made: Converter)
        ensures
            made.palette@ == Seq::<Rgb>::empty(),
            made.offsets@ == Seq::<Offset>::empty(),
            made.width == 0,
            made.height == 0,
            made.image_org.colors() == Seq::<Rgb>::empty(),
            made.image_converted.colors() == Seq::<Rgb>::empty(),
            made.original_fits(),
            made.converted_fits(),
    {
        Converter {
            image_org: Raster::empty(),
            image_converted: Raster::empty(),
            palette: Vec::new(),
            offsets: Vec::new(),
            width: 0,
            height: 0,
        }
    }
}

impl Converter {
    /// Whether the image that was read has the recorded width and height.
    pub open spec fn original_fits(&self) -> bool {
        self.image_org.columns() == self.width && self.image_org.rows() == self.height
    }

    /// Whether the converted image has the recorded width and height.
    pub open spec fn converted_fits(&self) -> bool {
        self.image_converted.columns() == self.width && self.image_converted.rows()
            == self.height
    }

    /// Whether `done` is this converter with `pixels` as its converted image.
    pub open spec fn converted_to(&self, done: Converter, pixels: Seq<Rgb>) -> bool {
        &&& done.image_org == self.image_org
        &&& done.palette == self.palette
        &&& done.offsets == self.offsets
        &&& done.width == self.width
        &&& done.height == self.height
        &&& done.image_converted.columns() == self.width
        &&& done.image_converted.rows() == self.height
        &&& done.image_converted.colors() == pixels
    }

    /// A converter without an image. A palette or a kernel that could not
    /// be loaded is replaced by its fallback.
    pub fn new(palette: Option<Vec<Rgb>>, offsets: Option<Vec<Offset>>) -> (made: Converter)
        ensures
            made.palette@ == match palette {
                Some(colors) => colors@,
                None => fallback_palette(),
            },
            made.offsets@ == match offsets {
                Some(entries) => entries@,
                None => fallback_offsets(),
            },
            made.width == 0,
            made.height == 0,
            made.image_org.colors() == Seq::<Rgb>::empty(),
            made.image_converted.colors() == Seq::<Rgb>::empty(),
            made.original_fits(),
            made.converted_fits(),
    {
        let colors = match palette {
            Some(colors) => colors,
            None => {
                let black = vec![Rgb { r: 0, g: 0, b: 0 }];
                assert(black@ =~= fallback_palette());
                black
            },
        };
        let entries = match offsets {
            Some(entries) => entries,
            None => {
                let still = vec![
                    Offset { dx: 0, dy: 0, weight: Weight { mantissa: 0, exponent: 0 } },
                ];
                assert(still@ =~= fallback_offsets());
                still
            },
        };
        Converter {
            image_org: Raster::empty(),
            image_converted: Raster::empty(),
            palette: colors,
            offsets: entries,
            width: 0,
            height: 0,
        }
    }

    /// The converter with `image` as the image to convert, and with its
    /// width and height recorded.
    pub fn read_image(self, image: Raster) -> (made: Converter)
        ensures
            made.image_org == image,
            made.width == image.columns(),
            made.height == image.rows(),
            made.original_fits(),
            made.image_converted == self.image_converted,
            made.palette == self.palette,
            made.offsets == self.offsets,
    {
        let (width, height) = image.size();
        Converter {
            image_org: image,
            image_converted: self.image_converted,
            palette: self.palette,
            offsets: self.offsets,
            width,
            height,
        }
    }

    /// Converts the image by error diffusion. An empty palette is refused,
    /// and so is an image whose size is not the recorded one.
    pub fn error_diffusion(self) -> (done: Result<Converter, DitherError>)
        requires
            self.width * self.height * self.offsets.len() <= share_limit(),
        ensures
            self.palette.len() == 0 ==> done is Err && done->Err_0 == DitherError::InvalidPalette,
            self.palette.len() > 0 && !self.original_fits() ==> done is Err && done->Err_0
                == DitherError::DimensionMismatch,
            self.palette.len() > 0 && self.original_fits() ==> done is Ok,
            done matches Ok(made) ==> self.converted_to(
                made,
                diffusion_image(
                    self.image_org.colors(),
                    self.width as int,
                    self.height as int,
                    self.palette@,
                    self.offsets@,
                ),
            ),
    {
        if self.palette.len() == 0 {
            return Err(DitherError::InvalidPalette);
        }
        let (width, height) = self.image_org.size();
        if width != self.width || height != self.height {
            return Err(DitherError::DimensionMismatch);
        }
        let original = self.image_org.to_pixels();
        let work = match diffuse(&original, width, height, &self.palette, &self.offsets) {
            Ok(work) => work,
            Err(e) => {
                return Err(e);
            },
        };
        let image = truncate_all(&work);
        proof {
            assert(forall|i: int| 0 <= i < work.len() ==> tones(work@)[i] == work@[i]@);
            assert(image@ =~= diffusion_image(
                self.image_org.colors(),
                self.width as int,
                self.height as int,
                self.palette@,
                self.offsets@,
            ));
        }
        match Raster::from_pixels(width, height, &image) {
            Some(converted) => Ok(
                Converter {
                    image_org: self.image_org,
                    image_converted: converted,
                    palette: self.palette,
                    offsets: self.offsets,
                    width: self.width,
                    height: self.height,
                },
            ),
            None => {
                proof {
                    assert(false);
                }
                Err(DitherError::DimensionMismatch)
            },
        }
    }

    /// Converts the image by ordered dithering. An empty palette is
    /// refused, and so is an image whose size is not the recorded one.
    pub fn bayer(self) -> (done: Result<Converter, DitherError>)
        ensures
            self.palette.len() == 0 ==> done is Err && done->Err_0 == DitherError::InvalidPalette,
            self.palette.len() > 0 && !self.original_fits() ==> done is Err && done->Err_0
                == DitherError::DimensionMismatch,
            self.palette.len() > 0 && self.original_fits() ==> done is Ok,
            done matches Ok(made) ==> self.converted_to(
                made,
                ordered_image(self.image_org.colors(), self.width as int, self.palette@),
            ),
    {
        if self.palette.len() == 0 {
            return Err(DitherError::InvalidPalette);
        }
        let (width, height) = self.image_org.size();
        if width != self.width || height != self.height {
            return Err(DitherError::DimensionMismatch);
        }
        let original = self.image_org.to_pixels();
        let image = match ordered_dither(&original, width, height, &self.palette) {
            Ok(image) => image,
            Err(e) => {
                return Err(e);
            },
        };
        match Raster::from_pixels(width, height, &image) {
            Some(converted) => Ok(
                Converter {
                    image_org: self.image_org,
                    image_converted: converted,
                    palette: self.palette,
                    offsets: self.offsets,
                    width: self.width,
                    height: self.height,
                },
            ),
            None => {
                proof {
                    assert(false);
                }
                Err(DitherError::DimensionMismatch)
            },
        }
    }

    /// The text form of the converted image: its size, and for every pixel
    /// the index of the nearest palette entry. An empty palette is refused,
    /// and so is a converted image whose size is not the recorded one.
    pub fn userdata(&self) -> (text: Result<String, DitherError>)
        ensures
            self.palette.len() == 0 ==> text == Err::<String, DitherError>(
                DitherError::InvalidPalette,
            ),
            self.palette.len() > 0 && !self.converted_fits() ==> text == Err::<
                String,
                DitherError,
            >(DitherError::DimensionMismatch),
            self.palette.len() > 0 && self.converted_fits() ==> text is Ok,
            text matches Ok(s) ==> s@ == userdata_of(
                self.width as nat,
                self.height as nat,
                self.image_converted.colors(),
                self.palette@,
            ),
    {
        if self.palette.len() == 0 {
            return Err(DitherError::InvalidPalette);
        }
        let (width, height) = self.image_converted.size();
        if width != self.width || height != self.height {
            return Err(DitherError::DimensionMismatch);
        }
        let pixels = self.image_converted.to_pixels();
        userdata_text(width, height, &pixels, &self.palette)
    }
}

} // verus!
