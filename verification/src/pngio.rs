//! Images as PNG files, through the `png` crate.
//!
//! What the codec makes of given bytes is not stated here but named:
//! [`png_info_of`], [`png_frame_of`] and [`png_file_of`] stand for its
//! results, and [`spec_read_png`] and [`spec_write_png`] say what the crate
//! does with them.

use crate::error::IcnsError;
use crate::image::{data_len, spec_data_len, spec_outcome, Image, ImageView, PixelFormat};
use vstd::prelude::*;

verus! {

/// `png::DecodingError`: why the decoder gave up. Nothing is known of it
/// here; it is only told apart from success.
#[verifier::external_type_specification]
#[verifier::external_body]
pub struct ExPngDecodingError(png::DecodingError);

/// `png::EncodingError`: why the encoder gave up. Nothing is known of it
/// here; it is only told apart from success.
#[verifier::external_type_specification]
#[verifier::external_body]
pub struct ExPngEncodingError(png::EncodingError);

/// What a PNG decoder says of the raster it is about to hand out.
///
/// `color_type` is the PNG color type number (0 grayscale, 2 RGB,
/// 3 indexed, 4 grayscale with alpha, 6 RGB with alpha) and `bit_depth` the
/// number of bits per sample, both as they come out of the decoder, after it
/// has expanded palettes and narrow samples and cut 16-bit samples to 8.
#[derive(Clone, Copy, Debug, PartialEq, Eq, Structural)]
pub struct PngInfo {
    pub color_type: u8,
    pub bit_depth: u8,
    pub width: u32,
    pub height: u32,
    pub buffer_size: usize,
}

/// What the PNG decoder reads from the header of the file `bytes`, where it
/// accepts the header.
pub uninterp spec fn png_info_of(bytes: Seq<u8>) -> Option<PngInfo>;

/// The raster that the PNG decoder writes into a buffer of `size` bytes for
/// the file `bytes`, where it decodes the file.
pub uninterp spec fn png_frame_of(bytes: Seq<u8>, size: usize) -> Option<Seq<u8>>;

/// The PNG file that the encoder writes for an 8-bit raster of the given
/// color type and dimensions, where it accepts them.
pub uninterp spec fn png_file_of(color_type: u8, width: u32, height: u32, data: Seq<u8>) -> Option<
    Seq<u8>,
>;

/// `png::Decoder::new` on the bytes, then `read_info`: the dimensions, the
/// output color type and bit depth, and the size of the output buffer, as
/// the decoder reports them under the transformations that it starts with.
/// The result is a function of the bytes alone.
#[verifier::external_body]
fn png_read_info(input: &[u8]) -> (r: Result<PngInfo, png::DecodingError>)
    ensures
        r is Ok <==> png_info_of(input@) is Some,
        r matches Ok(info) ==> png_info_of(input@) == Some(info),
{
    let (info, _reader) = png::Decoder::new(input).read_info()?;
    let (color_type, bit_depth) = (info.color_type as u8, info.bit_depth as u8);
    let (width, height, buffer_size) = (info.width, info.height, info.buffer_size());
    Ok(PngInfo { color_type, bit_depth, width, height, buffer_size })
}

/// `png::Decoder::new` on the bytes, `read_info`, then `Reader::next_frame`
/// into a zeroed buffer of `size` bytes: the buffer as the decoder leaves it.
/// The result is a function of the bytes and the size alone, and the buffer
/// keeps its length.
#[verifier::external_body]
fn png_read_frame(input: &[u8], size: usize) -> (r: Result<Vec<u8>, png::DecodingError>)
    ensures
        r is Ok <==> png_frame_of(input@, size) is Some,
        r matches Ok(data) ==> png_frame_of(input@, size) == Some(data@) && data@.len() == size,
{
    let (_info, mut reader) = png::Decoder::new(input).read_info()?;
    let mut data = vec![0u8; size];
    reader.next_frame(&mut data)?;
    Ok(data)
}

/// The number of samples in a pixel of each PNG color type that is written
/// here.
pub open spec fn spec_png_samples(color_type: u8) -> nat {
    if color_type == 0 {
        1
    } else if color_type == 2 {
        3
    } else if color_type == 4 {
        2
    } else {
        4
    }
}

/// `png::Encoder::new` on an empty vector, `set_color`, `set_depth` to eight
/// bits, `write_header`, then `Writer::write_image_data`: the bytes of the
/// file once the writer is dropped. The result is a function of the
/// arguments alone. The raster must have one byte for each sample.
#[verifier::external_body]
fn png_write(color_type: u8, width: u32, height: u32, data: &[u8]) -> (r: Result<
    Vec<u8>,
    png::EncodingError,
>)
    requires
        color_type == 0 || color_type == 2 || color_type == 4 || color_type == 6,
        data@.len() == width * height * spec_png_samples(color_type),
    ensures
        r is Ok <==> png_file_of(color_type, width, height, data@) is Some,
        r matches Ok(file) ==> png_file_of(color_type, width, height, data@) == Some(file@),
{
    let mut file = Vec::new();
    let mut encoder = png::Encoder::new(&mut file, width, height);
    encoder.set_color(png::ColorType::from_u8(color_type).unwrap());
    encoder.set_depth(png::BitDepth::Eight);
    let mut writer = encoder.write_header()?;
    writer.write_image_data(data)?;
    drop(writer);
    Ok(file)
}

impl PngInfo {
    /// The pixel format of the raster that the decoder announces: one of the
    /// four 8-bit formats that a PNG file has, and none for anything else.
    pub open spec fn spec_pixel_format(self) -> Result<PixelFormat, IcnsError> {
        if self.bit_depth != 8 {
            Err(IcnsError::UnsupportedPayload)
        } else if self.color_type == 6 {
            Ok(PixelFormat::RGBA)
        } else if self.color_type == 2 {
            Ok(PixelFormat::RGB)
        } else if self.color_type == 4 {
            Ok(PixelFormat::GrayAlpha)
        } else if self.color_type == 0 {
            Ok(PixelFormat::Gray)
        } else {
            Err(IcnsError::UnsupportedPayload)
        }
    }

    /// The pixel format of the raster that the decoder announces.
    pub fn pixel_format(&self) -> (r: Result<PixelFormat, IcnsError>)
        ensures
            r == self.spec_pixel_format(),
    {
        if self.bit_depth != 8 {
            Err(IcnsError::UnsupportedPayload)
        } else if self.color_type == 6 {
            Ok(PixelFormat::RGBA)
        } else if self.color_type == 2 {
            Ok(PixelFormat::RGB)
        } else if self.color_type == 4 {
            Ok(PixelFormat::GrayAlpha)
        } else if self.color_type == 0 {
            Ok(PixelFormat::Gray)
        } else {
            Err(IcnsError::UnsupportedPayload)
        }
    }
}

/// The PNG color type number under which a pixel format is written. An
/// alpha mask has none, and is written as grayscale with alpha.
pub open spec fn spec_png_color_type(format: PixelFormat) -> u8 {
    match format {
        PixelFormat::RGBA => 6,
        PixelFormat::RGB => 2,
        PixelFormat::GrayAlpha => 4,
        PixelFormat::Gray => 0,
        PixelFormat::Alpha => 4,
    }
}

/// The image that a PNG file decodes to, given what the decoder makes of the
/// file.
///
/// The decoder's failure on either step is an `IoError`. A raster that is
/// not 8-bit gray, gray with alpha, RGB or RGBA is an `UnsupportedPayload`,
/// and so is one whose buffer is not what the format and the dimensions
/// call for.
pub open spec fn spec_read_png(input: Seq<u8>) -> Result<ImageView, IcnsError> {
    match png_info_of(input) {
        None => Err(IcnsError::IoError),
        Some(info) => match info.spec_pixel_format() {
            Err(e) => Err(e),
            Ok(format) => if info.buffer_size != spec_data_len(format, info.width, info.height) {
                Err(IcnsError::UnsupportedPayload)
            } else {
                match png_frame_of(input, info.buffer_size) {
                    None => Err(IcnsError::IoError),
                    Some(data) => Ok(
                        ImageView { format, width: info.width, height: info.height, data },
                    ),
                }
            },
        },
    }
}

/// The PNG file that an image is written as, given what the encoder makes of
/// its raster. An alpha mask goes out as gray with alpha, its gray all
/// zero.
///
/// The encoder's failure is an `IoError`. An alpha mask whose raster would
/// not fit in memory with a gray byte beside each alpha byte is an
/// `InvalidLength`.
pub open spec fn spec_write_png(image: ImageView) -> Result<Seq<u8>, IcnsError> {
    if image.format == PixelFormat::Alpha && spec_data_len(
        PixelFormat::GrayAlpha,
        image.width,
        image.height,
    ) > usize::MAX {
        Err(IcnsError::InvalidLength)
    } else {
        let out = if image.format == PixelFormat::Alpha {
            image.converted(PixelFormat::GrayAlpha)
        } else {
            image
        };
        match png_file_of(spec_png_color_type(image.format), out.width, out.height, out.data) {
            Some(file) => Ok(file),
            None => Err(IcnsError::IoError),
        }
    }
}

/// The PNG color type number under which a pixel format is written.
fn png_color_type(format: PixelFormat) -> (code: u8)
    ensures
        code == spec_png_color_type(format),
{
    match format {
        PixelFormat::RGBA => 6,
        PixelFormat::RGB => 2,
        PixelFormat::GrayAlpha => 4,
        PixelFormat::Gray => 0,
        PixelFormat::Alpha => 4,
    }
}

impl Image {
    /// Reads an image from the bytes of a PNG file.
    pub fn read_png(input: &[u8]) -> (r: Result<Image, IcnsError>)
        ensures
            spec_outcome(r) == spec_read_png(input@),
            r matches Ok(image) ==> image.wf(),
    {
        let info = match png_read_info(input) {
            Ok(info) => info,
            Err(_) => {
                return Err(IcnsError::IoError);
            },
        };
        let format = match info.pixel_format() {
            Ok(format) => format,
            Err(e) => {
                return Err(e);
            },
        };
        let expected = data_len(format, info.width, info.height);
        if expected != Some(info.buffer_size) {
            return Err(IcnsError::UnsupportedPayload);
        }
        let data = match png_read_frame(input, info.buffer_size) {
            Ok(data) => data,
            Err(_) => {
                return Err(IcnsError::IoError);
            },
        };
        Image::from_data(format, info.width, info.height, data)
    }

    /// Writes the image as a PNG file, appending the file's bytes to
    /// `output`. Where that fails, `output` is as it was.
    pub fn write_png(&self, output: &mut Vec<u8>) -> (r: Result<(), IcnsError>)
        requires
            self.wf(),
        ensures
            match r {
                Ok(()) => spec_write_png(self@) matches Ok(file) && final(output)@ == old(
                    output,
                )@ + file,
                Err(e) => spec_write_png(self@) == Err::<Seq<u8>, IcnsError>(e) && final(output)@
                    == old(output)@,
            },
    {
        let code = png_color_type(self.pixel_format());
        let written = match self.pixel_format() {
            PixelFormat::Alpha => {
                if data_len(PixelFormat::GrayAlpha, self.width(), self.height()).is_none() {
                    return Err(IcnsError::InvalidLength);
                }
                let image = self.convert_to(PixelFormat::GrayAlpha);
                proof {
                    self@.lemma_converted_wf(PixelFormat::GrayAlpha);
                }
                png_write(code, image.width(), image.height(), image.data())
            },
            _ => png_write(code, self.width(), self.height(), self.data()),
        };
        match written {
            Ok(mut file) => {
                output.append(&mut file);
                Ok(())
            },
            Err(_) => Err(IcnsError::IoError),
        }
    }
}

} // verus!
