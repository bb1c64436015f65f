//! Images from what a JPEG 2000 decoder reports of a file.
//!
//! No decoder is called from here. A caller that has one hands over what it
//! reported: what it read from the headers, as a [`Jp2Info`], and the raster
//! that it made, as 8-bit samples. [`spec_jp2_image`] says which image comes
//! of the two, and [`Image::read_jp2`] makes it.

use crate::error::IcnsError;
use crate::image::{spec_data_len, spec_outcome, Image, ImageView, PixelFormat};
use vstd::prelude::*;

verus! {

/// The color space that a JPEG 2000 decoder finds in a file.
#[derive(Clone, Copy, Debug, PartialEq, Eq, Structural)]
pub enum Jp2ColorSpace {
    /// Grayscale.
    Gray,
    /// Red, green and blue.
    Rgb,
    /// Cyan, magenta, yellow and black.
    Cmyk,
    /// A color space that the decoder does not know.
    Unknown,
    /// A color space given by an ICC profile.
    Icc,
}

/// What a JPEG 2000 decoder says of a file before it decodes the raster.
#[derive(Clone, Copy, Debug, PartialEq, Eq, Structural)]
pub struct Jp2Info {
    pub color_space: Jp2ColorSpace,
    pub has_alpha: bool,
    pub width: u32,
    pub height: u32,
}

impl Jp2Info {
    /// The pixel format of the raster that the decoder announces: gray or
    /// RGB, each with or without alpha, and none for any other color space.
    pub open spec fn spec_pixel_format(self) -> Result<PixelFormat, IcnsError> {
        match self.color_space {
            Jp2ColorSpace::Gray => Ok(
                if self.has_alpha {
                    PixelFormat::GrayAlpha
                } else {
                    PixelFormat::Gray
                },
            ),
            Jp2ColorSpace::Rgb => Ok(
                if self.has_alpha {
                    PixelFormat::RGBA
                } else {
                    PixelFormat::RGB
                },
            ),
            _ => Err(IcnsError::UnsupportedPayload),
        }
    }

    /// The pixel format of the raster that the decoder announces.
    pub fn pixel_format(&self) -> (r: Result<PixelFormat, IcnsError>)
        ensures
            r == self.spec_pixel_format(),
    {
        match self.color_space {
            Jp2ColorSpace::Gray => Ok(
                if self.has_alpha {
                    PixelFormat::GrayAlpha
                } else {
                    PixelFormat::Gray
                },
            ),
            Jp2ColorSpace::Rgb => Ok(
                if self.has_alpha {
                    PixelFormat::RGBA
                } else {
                    PixelFormat::RGB
                },
            ),
            Jp2ColorSpace::Cmyk | Jp2ColorSpace::Unknown | Jp2ColorSpace::Icc => Err(
                IcnsError::UnsupportedPayload,
            ),
        }
    }
}

/// The image that comes of a JPEG 2000 file, given what a decoder read from
/// its headers, if it accepted them, and the raster that it made, if it made
/// one: 8-bit samples, pixel by pixel, alpha last where there is alpha.
///
/// The decoder's failure on either step is an `IoError`. A color space
/// other than gray or RGB is an `UnsupportedPayload`, whatever the raster,
/// and so is a raster whose length is not what the format and the
/// dimensions call for.
pub open spec fn spec_jp2_image(info: Option<Jp2Info>, pixels: Option<Seq<u8>>) -> Result<
    ImageView,
    IcnsError,
> {
    match info {
        None => Err(IcnsError::IoError),
        Some(info) => match info.spec_pixel_format() {
            Err(e) => Err(e),
            Ok(format) => match pixels {
                None => Err(IcnsError::IoError),
                Some(data) => if data.len() == spec_data_len(format, info.width, info.height) {
                    Ok(ImageView { format, width: info.width, height: info.height, data })
                } else {
                    Err(IcnsError::UnsupportedPayload)
                },
            },
        },
    }
}

/// The raster of a decoder's result as a mathematical value.
pub open spec fn spec_pixels(pixels: Option<Vec<u8>>) -> Option<Seq<u8>> {
    match pixels {
        Some(data) => Some(data@),
        None => None,
    }
}

impl Image {
    /// Reads an image from what a JPEG 2000 decoder reported of a file:
    /// `info` is what it read from the headers, or `None` where it refused
    /// them, and `pixels` is the raster that it made, or `None` where it made
    /// none.
    pub fn read_jp2(info: Option<Jp2Info>, pixels: Option<Vec<u8>>) -> (r: Result<
        Image,
        IcnsError,
    >)
        ensures
            spec_outcome(r) == spec_jp2_image(info, spec_pixels(pixels)),
            r matches Ok(image) ==> image.wf(),
    {
        let info = match info {
            Some(info) => info,
            None => {
                return Err(IcnsError::IoError);
            },
        };
        let format = match info.pixel_format() {
            Ok(format) => format,
            Err(e) => {
                return Err(e);
            },
        };
        let data = match pixels {
            Some(data) => data,
            None => {
                return Err(IcnsError::IoError);
            },
        };
        match Image::from_data(format, info.width, info.height, data) {
            Ok(image) => Ok(image),
            Err(_) => Err(IcnsError::UnsupportedPayload),
        }
    }
}

} // verus!
