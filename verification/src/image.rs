//! Rasters and their pixel formats.
//!
//! An [`Image`] is a buffer of pixels in one of five formats. Its
//! mathematical value, an [`ImageView`], reads the buffer pixel by pixel as
//! a [`Color`], which is how conversion between formats is stated.

use crate::error::IcnsError;
use crate::rle::{plane, Planes};
use vstd::arithmetic::div_mod::lemma_fundamental_div_mod_converse;
use vstd::prelude::*;

verus! {

/// Formats for storing pixel data in an image.
///
/// Regardless of format, pixel data is stored one complete pixel at a time,
/// in row-major order, the top-left pixel first.
#[derive(Clone, Copy, Debug, Eq, Hash, PartialEq, Structural)]
pub enum PixelFormat {
    /// 32-bit color with alpha channel.  Each pixel is four bytes, with red
    /// first and alpha last.
    RGBA,
    /// 24-bit color with no alpha.  Each pixel is three bytes, with red
    /// first and blue last.
    RGB,
    /// 16-bit grayscale-with-alpha.  Each pixel is two bytes, with the
    /// grayscale value first and alpha second.
    GrayAlpha,
    /// 8-bit grayscale with no alpha.  Each pixel is one byte (0=black,
    /// 255=white).
    Gray,
    /// 8-bit alpha mask with no color.  Each pixel is one byte (0=transparent,
    /// 255=opaque).
    Alpha,
}

/// What one pixel holds once its format is set aside: red, green, blue and
/// alpha.
///
/// A format without alpha reads as fully opaque, a gray format reads as the
/// gray value in all three color channels, and an alpha-only format reads as
/// black.
#[derive(Clone, Copy, Debug, Eq, PartialEq, Structural)]
pub struct Color {
    pub r: u8,
    pub g: u8,
    pub b: u8,
    pub a: u8,
}

impl Color {
    /// The gray value of a color: the integer mean of red, green and blue.
    pub open spec fn spec_gray(self) -> u8 {
        ((self.r + self.g + self.b) / 3) as u8
    }

    /// The gray value of a color: the integer mean of red, green and blue.
    pub fn gray(self) -> (v: u8)
        ensures
            v == self.spec_gray(),
    {
        let sum: u16 = self.r as u16 + self.g as u16 + self.b as u16;
        (sum / 3) as u8
    }
}

impl PixelFormat {
    /// The number of bytes that one pixel takes.
    pub open spec fn spec_bytes_per_pixel(self) -> nat {
        match self {
            PixelFormat::RGBA => 4,
            PixelFormat::RGB => 3,
            PixelFormat::GrayAlpha => 2,
            PixelFormat::Gray => 1,
            PixelFormat::Alpha => 1,
        }
    }

    /// The number of bits that one pixel takes.
    pub open spec fn spec_bits_per_pixel(self) -> nat {
        8 * self.spec_bytes_per_pixel()
    }

    /// Whether the format stores an alpha channel.
    pub open spec fn spec_has_alpha(self) -> bool {
        self == PixelFormat::RGBA || self == PixelFormat::GrayAlpha || self == PixelFormat::Alpha
    }

    /// The color of pixel `i` of a buffer in this format.
    pub open spec fn spec_load(self, data: Seq<u8>, i: int) -> Color {
        match self {
            PixelFormat::RGBA => Color {
                r: data[4 * i],
                g: data[4 * i + 1],
                b: data[4 * i + 2],
                a: data[4 * i + 3],
            },
            PixelFormat::RGB => Color {
                r: data[3 * i],
                g: data[3 * i + 1],
                b: data[3 * i + 2],
                a: 255,
            },
            PixelFormat::GrayAlpha => Color {
                r: data[2 * i],
                g: data[2 * i],
                b: data[2 * i],
                a: data[2 * i + 1],
            },
            PixelFormat::Gray => Color { r: data[i], g: data[i], b: data[i], a: 255 },
            PixelFormat::Alpha => Color { r: 0, g: 0, b: 0, a: data[i] },
        }
    }

    /// The bytes that hold a color in this format. Color becomes gray by
    /// the integer mean, and whatever the format has no room for is dropped.
    pub open spec fn spec_store(self, c: Color) -> Seq<u8> {
        match self {
            PixelFormat::RGBA => seq![c.r, c.g, c.b, c.a],
            PixelFormat::RGB => seq![c.r, c.g, c.b],
            PixelFormat::GrayAlpha => seq![c.spec_gray(), c.a],
            PixelFormat::Gray => seq![c.spec_gray()],
            PixelFormat::Alpha => seq![c.a],
        }
    }

    /// The color as it reads back after being stored in this format.
    pub open spec fn spec_reload(self, c: Color) -> Color {
        self.spec_load(self.spec_store(c), 0)
    }

    /// Returns the number of bits needed to store a single pixel in this
    /// format.
    pub fn bits_per_pixel(self) -> (bits: u32)
        ensures
            bits == self.spec_bits_per_pixel(),
    {
        match self {
            PixelFormat::RGBA => 32,
            PixelFormat::RGB => 24,
            PixelFormat::GrayAlpha => 16,
            PixelFormat::Gray => 8,
            PixelFormat::Alpha => 8,
        }
    }

    /// Returns the number of bytes needed to store a single pixel in this
    /// format.
    pub fn bytes_per_pixel(self) -> (bytes: usize)
        ensures
            bytes == self.spec_bytes_per_pixel(),
    {
        match self {
            PixelFormat::RGBA => 4,
            PixelFormat::RGB => 3,
            PixelFormat::GrayAlpha => 2,
            PixelFormat::Gray => 1,
            PixelFormat::Alpha => 1,
        }
    }

    /// Reads the color of pixel `i` from a buffer in this format.
    pub fn load(self, data: &[u8], i: usize) -> (c: Color)
        requires
            (i + 1) * self.spec_bytes_per_pixel() <= data@.len(),
        ensures
            c == self.spec_load(data@, i as int),
    {
        // Looking at the length tells the verifier that it fits a `usize`.
        let _len = data.len();
        match self {
            PixelFormat::RGBA => Color {
                r: data[4 * i],
                g: data[4 * i + 1],
                b: data[4 * i + 2],
                a: data[4 * i + 3],
            },
            PixelFormat::RGB => Color {
                r: data[3 * i],
                g: data[3 * i + 1],
                b: data[3 * i + 2],
                a: 255,
            },
            PixelFormat::GrayAlpha => Color {
                r: data[2 * i],
                g: data[2 * i],
                b: data[2 * i],
                a: data[2 * i + 1],
            },
            PixelFormat::Gray => Color { r: data[i], g: data[i], b: data[i], a: 255 },
            PixelFormat::Alpha => Color { r: 0, g: 0, b: 0, a: data[i] },
        }
    }

    /// Appends the bytes that hold a color in this format.
    pub fn store(self, out: &mut Vec<u8>, c: Color)
        ensures
            final(out)@ == old(out)@ + self.spec_store(c),
    {
        match self {
            PixelFormat::RGBA => {
                out.push(c.r);
                out.push(c.g);
                out.push(c.b);
                out.push(c.a);
            },
            PixelFormat::RGB => {
                out.push(c.r);
                out.push(c.g);
                out.push(c.b);
            },
            PixelFormat::GrayAlpha => {
                out.push(c.gray());
                out.push(c.a);
            },
            PixelFormat::Gray => {
                out.push(c.gray());
            },
            PixelFormat::Alpha => {
                out.push(c.a);
            },
        }
        assert(out@ =~= old(out)@ + self.spec_store(c));
    }

    /// Returns true if pixels in this format carry an alpha value.
    pub fn has_alpha(self) -> (r: bool)
        ensures
            r == self.spec_has_alpha(),
    {
        match self {
            PixelFormat::RGBA | PixelFormat::GrayAlpha | PixelFormat::Alpha => true,
            PixelFormat::RGB | PixelFormat::Gray => false,
        }
    }
}

/// The number of bytes in the buffer of an image of the given format and
/// dimensions.
pub open spec fn spec_data_len(format: PixelFormat, width: u32, height: u32) -> nat {
    (width as nat) * (height as nat) * format.spec_bytes_per_pixel()
}

/// An image as a mathematical value: its format, its dimensions and the
/// bytes of its buffer.
pub struct ImageView {
    pub format: PixelFormat,
    pub width: u32,
    pub height: u32,
    pub data: Seq<u8>,
}

impl ImageView {
    /// The number of pixels.
    pub open spec fn num_pixels(self) -> nat {
        (self.width as nat) * (self.height as nat)
    }

    /// The buffer has exactly the bytes that the format and the dimensions
    /// call for.
    pub open spec fn wf(self) -> bool {
        self.data.len() == spec_data_len(self.format, self.width, self.height)
    }

    /// The color of pixel `i`, counting row by row from the top left.
    pub open spec fn pixel(self, i: int) -> Color {
        self.format.spec_load(self.data, i)
    }

    /// The red of each pixel.
    pub open spec fn reds(self) -> Seq<u8> {
        Seq::new(self.num_pixels(), |i: int| self.pixel(i).r)
    }

    /// The green of each pixel.
    pub open spec fn greens(self) -> Seq<u8> {
        Seq::new(self.num_pixels(), |i: int| self.pixel(i).g)
    }

    /// The blue of each pixel.
    pub open spec fn blues(self) -> Seq<u8> {
        Seq::new(self.num_pixels(), |i: int| self.pixel(i).b)
    }

    /// The alpha of each pixel.
    pub open spec fn alphas(self) -> Seq<u8> {
        Seq::new(self.num_pixels(), |i: int| self.pixel(i).a)
    }

    /// The gray value of each pixel.
    pub open spec fn grays(self) -> Seq<u8> {
        Seq::new(self.num_pixels(), |i: int| self.pixel(i).spec_gray())
    }

    /// The red, the green and the blue plane.
    pub open spec fn color_planes(self) -> Planes {
        Planes { r: self.reds(), g: self.greens(), b: self.blues() }
    }

    /// The first `n` pixels of the image, stored anew in another format.
    #[verifier::opaque]
    pub open spec fn converted_data(self, format: PixelFormat, n: nat) -> Seq<u8> {
        let bpp = format.spec_bytes_per_pixel() as int;
        Seq::new(
            n * format.spec_bytes_per_pixel(),
            |j: int| format.spec_store(self.pixel(j / bpp))[j % bpp],
        )
    }

    /// Converting one pixel more appends that pixel's bytes.
    pub proof fn lemma_converted_data_step(self, format: PixelFormat, n: nat)
        ensures
            self.converted_data(format, n + 1) == self.converted_data(format, n)
                + format.spec_store(self.pixel(n as int)),
    {
        reveal(ImageView::converted_data);
        let bpp = format.spec_bytes_per_pixel() as int;
        let a = self.converted_data(format, n + 1);
        let b = self.converted_data(format, n) + format.spec_store(self.pixel(n as int));
        assert((n + 1) * bpp == n * bpp + bpp) by (nonlinear_arith);
        assert(a.len() == b.len());
        assert forall|j: int| 0 <= j < a.len() implies a[j] == b[j] by {
            if j >= n * bpp {
                lemma_fundamental_div_mod_converse(j, bpp, n as int, j - n * bpp);
            }
        }
        assert(a =~= b);
    }

    /// The image with every pixel stored anew in another format.
    pub open spec fn converted(self, format: PixelFormat) -> ImageView {
        ImageView {
            format,
            width: self.width,
            height: self.height,
            data: self.converted_data(format, self.num_pixels()),
        }
    }
}

impl ImageView {
    /// Conversion keeps the dimensions, takes the requested format, and
    /// yields a buffer of the right length.
    pub proof fn lemma_converted_wf(self, format: PixelFormat)
        ensures
            self.converted(format).wf(),
            self.converted(format).format == format,
            self.converted(format).width == self.width,
            self.converted(format).height == self.height,
            self.converted(format).data.len() == self.num_pixels()
                * format.spec_bytes_per_pixel(),
    {
        reveal(ImageView::converted_data);
    }

    /// Each pixel of the converted image is the source pixel as it reads
    /// back from the new format.
    pub proof fn lemma_converted_pixel(self, format: PixelFormat, i: int)
        requires
            0 <= i < self.num_pixels(),
        ensures
            self.converted(format).pixel(i) == format.spec_reload(self.pixel(i)),
    {
        reveal(ImageView::converted_data);
        let bpp = format.spec_bytes_per_pixel() as int;
        let n = self.num_pixels() as int;
        let d = self.converted(format).data;
        assert(i * bpp + bpp <= n * bpp) by (nonlinear_arith)
            requires
                0 <= i < n,
                bpp > 0,
        ;
        assert forall|k: int| 0 <= k < bpp implies #[trigger] d[bpp * i + k] == format.spec_store(
            self.pixel(i),
        )[k] by {
            assert(bpp * i == i * bpp) by (nonlinear_arith);
            lemma_fundamental_div_mod_converse(bpp * i + k, bpp, i, k);
        }
        match format {
            PixelFormat::RGBA => {
                assert(d[4 * i + 0] == d[4 * i]);
                assert(d[4 * i + 1] == format.spec_store(self.pixel(i))[1]);
                assert(d[4 * i + 2] == format.spec_store(self.pixel(i))[2]);
                assert(d[4 * i + 3] == format.spec_store(self.pixel(i))[3]);
            },
            PixelFormat::RGB => {
                assert(d[3 * i + 0] == d[3 * i]);
                assert(d[3 * i + 1] == format.spec_store(self.pixel(i))[1]);
                assert(d[3 * i + 2] == format.spec_store(self.pixel(i))[2]);
            },
            PixelFormat::GrayAlpha => {
                assert(d[2 * i + 0] == d[2 * i]);
                assert(d[2 * i + 1] == format.spec_store(self.pixel(i))[1]);
            },
            PixelFormat::Gray => {
                assert(d[1 * i + 0] == d[i]);
            },
            PixelFormat::Alpha => {
                assert(d[1 * i + 0] == d[i]);
            },
        }
    }

    /// What conversion keeps: a color format keeps red, green and blue, a
    /// format with alpha keeps alpha, and a gray format holds the gray
    /// value.
    pub proof fn lemma_converted_planes(self, format: PixelFormat)
        ensures
            format == PixelFormat::RGBA || format == PixelFormat::RGB ==> self.converted(
                format,
            ).color_planes() == self.color_planes(),
            format.spec_has_alpha() ==> self.converted(format).alphas() == self.alphas(),
            format == PixelFormat::GrayAlpha || format == PixelFormat::Gray ==> self.converted(
                format,
            ).grays() == self.grays(),
    {
        let c = self.converted(format);
        assert(c.num_pixels() == self.num_pixels());
        assert forall|i: int| 0 <= i < self.num_pixels() implies c.pixel(i) == format.spec_reload(
            self.pixel(i),
        ) by {
            self.lemma_converted_pixel(format, i);
        }
        if format == PixelFormat::RGBA || format == PixelFormat::RGB {
            assert(c.reds() =~= self.reds());
            assert(c.greens() =~= self.greens());
            assert(c.blues() =~= self.blues());
        }
        if format.spec_has_alpha() {
            assert(c.alphas() =~= self.alphas());
        }
        if format == PixelFormat::GrayAlpha || format == PixelFormat::Gray {
            assert(c.grays() =~= self.grays());
        }
    }

    /// The planes of the buffer are the channels of the pixels.
    pub proof fn lemma_data_planes(self)
        requires
            self.wf(),
        ensures
            self.format == PixelFormat::RGBA ==> plane(self.data, 4, 0, self.num_pixels())
                == self.reds() && plane(self.data, 4, 1, self.num_pixels()) == self.greens()
                && plane(self.data, 4, 2, self.num_pixels()) == self.blues() && plane(
                self.data,
                4,
                3,
                self.num_pixels(),
            ) == self.alphas(),
            self.format == PixelFormat::RGB ==> plane(self.data, 3, 0, self.num_pixels())
                == self.reds() && plane(self.data, 3, 1, self.num_pixels()) == self.greens()
                && plane(self.data, 3, 2, self.num_pixels()) == self.blues(),
            self.format == PixelFormat::GrayAlpha ==> plane(self.data, 2, 0, self.num_pixels())
                == self.grays() && plane(self.data, 2, 1, self.num_pixels()) == self.alphas(),
            self.format == PixelFormat::Gray ==> plane(self.data, 1, 0, self.num_pixels())
                == self.grays() && self.data == self.grays(),
            self.format == PixelFormat::Alpha ==> self.data == self.alphas(),
    {
        let n = self.num_pixels();
        match self.format {
            PixelFormat::RGBA => {
                assert(plane(self.data, 4, 0, n) =~= self.reds());
                assert(plane(self.data, 4, 1, n) =~= self.greens());
                assert(plane(self.data, 4, 2, n) =~= self.blues());
                assert(plane(self.data, 4, 3, n) =~= self.alphas());
            },
            PixelFormat::RGB => {
                assert(plane(self.data, 3, 0, n) =~= self.reds());
                assert(plane(self.data, 3, 1, n) =~= self.greens());
                assert(plane(self.data, 3, 2, n) =~= self.blues());
            },
            PixelFormat::GrayAlpha => {
                assert(plane(self.data, 2, 0, n) =~= self.grays());
                assert(plane(self.data, 2, 1, n) =~= self.alphas());
            },
            PixelFormat::Gray => {
                assert(plane(self.data, 1, 0, n) =~= self.grays());
                assert(self.data =~= self.grays());
            },
            PixelFormat::Alpha => {
                assert(self.data =~= self.alphas());
            },
        }
    }

    /// Converting an image to the format it already has changes nothing.
    pub proof fn lemma_convert_to_own_format(self)
        requires
            self.wf(),
        ensures
            self.converted(self.format) == self,
    {
        reveal(ImageView::converted_data);
        let bpp = self.format.spec_bytes_per_pixel() as int;
        let d = self.converted(self.format).data;
        assert(d.len() == self.data.len());
        assert forall|j: int| 0 <= j < d.len() implies d[j] == self.data[j] by {
            let q = j / bpp;
            let k = j % bpp;
            assert(j == bpp * q + k && 0 <= k < bpp) by (nonlinear_arith)
                requires
                    q == j / bpp,
                    k == j % bpp,
                    bpp > 0,
            ;
        }
        assert(d =~= self.data);
    }

    /// Converting twice to one format gives what converting once gives.
    pub proof fn lemma_convert_twice(self, format: PixelFormat)
        ensures
            self.converted(format).converted(format) == self.converted(format),
    {
        self.lemma_converted_wf(format);
        self.converted(format).lemma_convert_to_own_format();
    }

    /// From RGBA to RGB and back, every pixel keeps its color and becomes
    /// fully opaque.
    pub proof fn lemma_rgba_through_rgb(self, i: int)
        requires
            self.format == PixelFormat::RGBA,
            0 <= i < self.num_pixels(),
        ensures
            self.converted(PixelFormat::RGB).converted(PixelFormat::RGBA).pixel(i) == (Color {
                a: 255,
                ..self.pixel(i)
            }),
    {
        let mid = self.converted(PixelFormat::RGB);
        self.lemma_converted_pixel(PixelFormat::RGB, i);
        mid.lemma_converted_pixel(PixelFormat::RGBA, i);
    }

    /// From gray to RGBA and back, the image is what it was.
    pub proof fn lemma_gray_through_rgba(self)
        requires
            self.wf(),
            self.format == PixelFormat::Gray,
        ensures
            self.converted(PixelFormat::RGBA).converted(PixelFormat::Gray) == self,
    {
        let mid = self.converted(PixelFormat::RGBA);
        let back = mid.converted(PixelFormat::Gray);
        self.lemma_converted_wf(PixelFormat::RGBA);
        mid.lemma_converted_wf(PixelFormat::Gray);
        assert(back.data.len() == self.data.len());
        assert forall|j: int| 0 <= j < back.data.len() implies back.data[j] == self.data[j] by {
            self.lemma_converted_pixel(PixelFormat::RGBA, j);
            mid.lemma_converted_pixel(PixelFormat::Gray, j);
            assert(back.pixel(j).r == back.data[j]);
            assert(self.pixel(j).r == self.data[j]);
        }
        assert(back.data =~= self.data);
    }

    /// An alpha mask converted to gray is all zeros.
    pub proof fn lemma_alpha_to_gray_is_black(self, j: int)
        requires
            self.format == PixelFormat::Alpha,
            0 <= j < self.num_pixels(),
        ensures
            self.converted(PixelFormat::Gray).data.len() == self.num_pixels(),
            self.converted(PixelFormat::Gray).data[j] == 0,
    {
        self.lemma_converted_wf(PixelFormat::Gray);
        self.lemma_converted_pixel(PixelFormat::Gray, j);
        assert(self.converted(PixelFormat::Gray).pixel(j).r == self.converted(
            PixelFormat::Gray,
        ).data[j]);
    }
}

/// What came of making an image, as a mathematical value: the view of the
/// image, or the error.
pub open spec fn spec_outcome(r: Result<Image, IcnsError>) -> Result<ImageView, IcnsError> {
    match r {
        Ok(image) => Ok(image@),
        Err(e) => Err(e),
    }
}

/// The buffer length in bits, rounded up to whole bytes, is the buffer length
/// in bytes.
pub proof fn lemma_data_len_is_bits_rounded_up(format: PixelFormat, width: u32, height: u32)
    ensures
        spec_data_len(format, width, height) == ((width as nat) * (height as nat)
            * format.spec_bits_per_pixel() + 7) / 8,
{
    let n = (width as nat) * (height as nat);
    let b = format.spec_bytes_per_pixel();
    assert(n * (8 * b) == 8 * (n * b)) by (nonlinear_arith);
}

/// A decoded icon image.
///
/// An `Image` consists of a width, a height, a [`PixelFormat`], and a data
/// array encoding the image pixels in that format.
pub struct Image {
    format: PixelFormat,
    width: u32,
    height: u32,
    data: Vec<u8>,
}

impl View for Image {
    type V = ImageView;

    closed spec fn view(&self) -> ImageView {
        ImageView { format: self.format, width: self.width, height: self.height, data: self.data@ }
    }
}

impl Clone for Image {
    fn clone(&self) -> (copy: Image)
        ensures
            copy@ == self@,
    {
        Image {
            format: self.format,
            width: self.width,
            height: self.height,
            data: self.data.clone(),
        }
    }
}

impl Image {
    /// The buffer has exactly the bytes that the format and the dimensions
    /// call for.
    pub open spec fn wf(&self) -> bool {
        self@.wf()
    }

    /// Creates a new image with all pixel data set to zero.
    pub fn new(format: PixelFormat, width: u32, height: u32) -> (img: Image)
        requires
            spec_data_len(format, width, height) <= usize::MAX,
        ensures
            img.wf(),
            img@.format == format,
            img@.width == width,
            img@.height == height,
            forall|i: int| 0 <= i < img@.data.len() ==> img@.data[i] == 0,
    {
        let len = data_len(format, width, height);
        let data = vec![0u8; len.unwrap()];
        Image { format, width, height, data }
    }

    /// Creates a new image using the given pixel data.  Returns an error if
    /// the data array is not the correct length.
    pub fn from_data(format: PixelFormat, width: u32, height: u32, data: Vec<u8>) -> (r: Result<
        Image,
        IcnsError,
    >)
        ensures
            spec_outcome(r) == (if data@.len() == spec_data_len(format, width, height) {
                Ok::<ImageView, IcnsError>(ImageView { format, width, height, data: data@ })
            } else {
                Err::<ImageView, IcnsError>(IcnsError::PayloadSize)
            }),
            r matches Ok(image) ==> image.wf(),
    {
        let given = data.len();
        match data_len(format, width, height) {
            Some(len) => {
                if len == given {
                    Ok(Image { format, width, height, data })
                } else {
                    Err(IcnsError::PayloadSize)
                }
            },
            None => Err(IcnsError::PayloadSize),
        }
    }

    /// Returns the format in which this image's pixel data is stored.
    pub fn pixel_format(&self) -> (format: PixelFormat)
        ensures
            format == self@.format,
    {
        self.format
    }

    /// Returns the width of the image, in pixels.
    pub fn width(&self) -> (width: u32)
        ensures
            width == self@.width,
    {
        self.width
    }

    /// Returns the height of the image, in pixels.
    pub fn height(&self) -> (height: u32)
        ensures
            height == self@.height,
    {
        self.height
    }

    /// Returns a reference to the image's pixel data.
    pub fn data(&self) -> (data: &[u8])
        ensures
            data@ == self@.data,
    {
        self.data.as_slice()
    }

    /// Creates a copy of this image by converting to the specified pixel
    /// format.  This operation always succeeds, but may lose information (e.g.
    /// converting from RGBA to RGB will silently drop the alpha channel).  If
    /// the source image is already in the requested format, the copy is equal
    /// to the source.
    pub fn convert_to(&self, format: PixelFormat) -> (out: Image)
        requires
            self.wf(),
            spec_data_len(format, self@.width, self@.height) <= usize::MAX,
        ensures
            out@ == self@.converted(format),
            out.wf(),
    {
        let src = self.format;
        let src_bpp = src.bytes_per_pixel();
        let n = self.data.len() / src_bpp;
        let ghost view = self@;
        proof {
            let wh = view.num_pixels() as int;
            let b = src_bpp as int;
            assert((wh * b) / b == wh && n * b == wh * b) by (nonlinear_arith)
                requires
                    b > 0,
                    n == (wh * b) / b,
            ;
        }
        let mut data: Vec<u8> = Vec::new();
        let mut i: usize = 0;
        proof {
            reveal(ImageView::converted_data);
            assert(data@ =~= view.converted_data(format, 0));
        }
        while i < n
            invariant
                i <= n,
                n * src_bpp == self.data@.len(),
                src == self.format,
                src_bpp == src.spec_bytes_per_pixel(),
                view == self@,
                data@ == view.converted_data(format, i as nat),
            decreases n - i,
        {
            assert((i + 1) * src_bpp <= n * src_bpp) by (nonlinear_arith)
                requires
                    i < n,
            ;
            let c = src.load(self.data.as_slice(), i);
            format.store(&mut data, c);
            proof {
                view.lemma_converted_data_step(format, i as nat);
            }
            i += 1;
        }
        Image { format, width: self.width, height: self.height, data }
    }

    /// Returns a mutable reference to the image's pixel data.
    ///
    /// The image stays well-formed as long as what is written through the
    /// reference keeps the length, which a slice cannot but do.
    pub fn data_mut(&mut self) -> (data: &mut [u8])
        ensures
            data@ == old(self)@.data,
            final(self)@ == (ImageView { data: final(data)@, ..old(self)@ }),
    {
        self.data.as_mut_slice()
    }

    /// Consumes the image, returning the pixel data without cloning it.
    pub fn into_data(self) -> (data: Box<[u8]>)
        ensures
            data@ == self@.data,
    {
        into_boxed_slice(self.data)
    }
}

/// `Vec::into_boxed_slice` of std: the box holds the elements of the vector,
/// in the same order.
#[verifier::external_body]
fn into_boxed_slice(v: Vec<u8>) -> (b: Box<[u8]>)
    ensures
        b@ == v@,
{
    v.into_boxed_slice()
}

/// The number of bytes in the buffer of an image of the given format and
/// dimensions, where that number fits a `usize`.
pub fn data_len(format: PixelFormat, width: u32, height: u32) -> (len: Option<usize>)
    ensures
        len matches Some(n) ==> n == spec_data_len(format, width, height),
        len is None ==> spec_data_len(format, width, height) > usize::MAX,
{
    let bytes: u128 = (format.bits_per_pixel() / 8) as u128;
    assert((width as nat) * (height as nat) <= 0xffff_ffff * 0xffff_ffff) by (nonlinear_arith)
        requires
            width <= 0xffff_ffff,
            height <= 0xffff_ffff,
    ;
    let pixels: u128 = (width as u128) * (height as u128);
    assert(pixels * bytes <= 0xffff_ffff * 0xffff_ffff * 4) by (nonlinear_arith)
        requires
            pixels <= 0xffff_ffff * 0xffff_ffff,
            bytes <= 4,
    ;
    let total: u128 = pixels * bytes;
    if total <= usize::MAX as u128 {
        Some(total as usize)
    } else {
        None
    }
}

} // verus!
