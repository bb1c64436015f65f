//! Icon elements: a tag and a payload, framed by an eight-byte header.
//!
//! [`spec_read_element`] and [`ElementView::framed`] give the framing,
//! [`spec_encode_payload`] the payload that holds an image under an icon
//! type, and [`spec_decode_image`], [`spec_decode_image_with_jp2`] and
//! [`spec_decode_image_with_mask`] the image that a payload holds.

use crate::endian::{be_u32_bytes, lemma_be_round_trip, read_be_u32, spec_be_bytes, spec_be_u32};
use crate::error::IcnsError;
use crate::icontype::{Encoding, IconType, OSType};
use crate::image::{spec_outcome, Image, ImageView, PixelFormat};
use crate::jp2io::{spec_jp2_image, spec_pixels, Jp2Info};
use crate::mono::{
    decode_mono, decode_mono_alpha, lemma_unpack_pack, pack_plane, spec_decode_mask,
    spec_decode_mono, spec_encode_mask, spec_encode_mono, spec_pack, spec_spread, spec_threshold,
};
use crate::pngio::{spec_read_png, spec_write_png};
use crate::rle::{
    decode_rle, encode_rle, interleave, lemma_decode_encode, lemma_encode_prefix,
    lemma_interleave_planes, plane, put, spec_decode, spec_encode,
};
use vstd::prelude::*;
use vstd::slice::{slice_subrange, slice_to_vec};

verus! {

/// An icon element as a mathematical value: the four bytes of its tag and
/// the bytes of its payload.
pub struct ElementView {
    pub ostype: Seq<u8>,
    pub data: Seq<u8>,
}

impl ElementView {
    /// The tag has four bytes.
    pub open spec fn wf(self) -> bool {
        self.ostype.len() == 4
    }

    /// The icon type whose tag the element carries, if it is a known one.
    pub open spec fn icon_type(self) -> Option<IconType> {
        IconType::spec_from_ostype(self.ostype)
    }

    /// The length of the element in a file: eight bytes of header and the
    /// payload.
    pub open spec fn framed_len(self) -> nat {
        8 + self.data.len()
    }

    /// The element as it stands in a file: the tag, the framed length as a
    /// big-endian 32-bit number, and the payload.
    pub open spec fn framed(self) -> Seq<u8> {
        self.ostype + spec_be_bytes(self.framed_len() as u32) + self.data
    }
}

/// The element that stands at the front of `input`.
///
/// Fewer than eight bytes, or fewer than the length field counts, is an
/// `IoError`: the input ended early. A length field under eight is an
/// `InvalidLength`.
pub open spec fn spec_read_element(input: Seq<u8>) -> Result<ElementView, IcnsError> {
    if input.len() < 8 {
        Err(IcnsError::IoError)
    } else {
        let len = spec_be_u32(input.subrange(4, 8));
        if len < 8 {
            Err(IcnsError::InvalidLength)
        } else if input.len() < len {
            Err(IcnsError::IoError)
        } else {
            Ok(ElementView { ostype: input.subrange(0, 4), data: input.subrange(8, len as int) })
        }
    }
}

/// An element that was read stands at the front of what it was read from,
/// and fits the 32-bit length field.
pub proof fn lemma_framed_of_read(input: Seq<u8>)
    ensures
        spec_read_element(input) matches Ok(e) ==> e.wf() && 8 <= e.framed_len() <= u32::MAX
            && e.framed_len() <= input.len() && e.framed() == input.subrange(
            0,
            e.framed_len() as int,
        ),
{
    if let Ok(e) = spec_read_element(input) {
        let field = input.subrange(4, 8);
        let len = spec_be_u32(field);
        lemma_be_round_trip(len, field);
        assert(e.framed() =~= input.subrange(0, len as int));
    }
}

/// An element that is written and read again is the same element, whatever
/// follows it.
pub proof fn lemma_read_framed(e: ElementView, rest: Seq<u8>)
    requires
        e.wf(),
        e.framed_len() <= u32::MAX,
    ensures
        spec_read_element(e.framed() + rest) == Ok::<ElementView, IcnsError>(e),
{
    let len = e.framed_len() as u32;
    let input = e.framed() + rest;
    lemma_be_round_trip(len, spec_be_bytes(len));
    assert(input.subrange(4, 8) =~= spec_be_bytes(len));
    assert(input.subrange(0, 4) =~= e.ostype);
    assert(input.subrange(8, len as int) =~= e.data);
}

/// The payload that holds an image under an icon type.
///
/// The image must have the raster size of the icon type, or it is a
/// `DimensionMismatch`. A PNG payload is the image's PNG file. A run-length
/// payload is the stream for the red, green and blue of the pixels; alpha is
/// left out. A mask payload is the alpha of the pixels. A one-bit payload is
/// the bitmap of the gray values, a set bit where the pixel is darker than
/// 128, and with a mask it is followed by the bitmap of alpha, a set bit
/// where alpha is 128 or more.
pub open spec fn spec_encode_payload(image: ImageView, icon_type: IconType) -> Result<
    Seq<u8>,
    IcnsError,
> {
    if image.width != icon_type.spec_pixel_width() || image.height
        != icon_type.spec_pixel_height() {
        Err(IcnsError::DimensionMismatch)
    } else {
        match icon_type.spec_encoding() {
            Encoding::JP2PNG => spec_write_png(image),
            Encoding::RLE24 => Ok(spec_encode(image.color_planes())),
            Encoding::Mask8 => Ok(image.alphas()),
            Encoding::Mono => Ok(spec_encode_mono(image.grays())),
            Encoding::MonoA => Ok(
                spec_encode_mono(image.grays()) + spec_encode_mask(image.alphas()),
            ),
        }
    }
}

/// The first twelve bytes of every JPEG 2000 file.
pub open spec fn spec_jp2_magic() -> Seq<u8> {
    seq![0x00u8, 0x00, 0x00, 0x0C, 0x6A, 0x50, 0x20, 0x20, 0x0D, 0x0A, 0x87, 0x0A]
}

/// Whether a payload begins like a JPEG 2000 file.
pub open spec fn spec_is_jp2(data: Seq<u8>) -> bool {
    data.len() >= 12 && data.subrange(0, 12) == spec_jp2_magic()
}

/// Whether decoding an element takes a JPEG 2000 decoder: its icon type
/// holds a PNG or JPEG 2000 file, and the payload begins like the second.
pub open spec fn spec_takes_jp2(e: ElementView) -> bool {
    e.icon_type() matches Some(t) && t.spec_encoding() == Encoding::JP2PNG && spec_is_jp2(e.data)
}

/// What a decoded file gives as the image of an icon type: the image, where
/// it has the raster size of the type, and a `DimensionMismatch` where it
/// has another.
pub open spec fn spec_fit(t: IconType, decoded: Result<ImageView, IcnsError>) -> Result<
    ImageView,
    IcnsError,
> {
    match decoded {
        Err(e) => Err(e),
        Ok(image) => if image.width != t.spec_pixel_width() || image.height
            != t.spec_pixel_height() {
            Err(IcnsError::DimensionMismatch)
        } else {
            Ok(image)
        },
    }
}

/// The image that an element's payload holds, as far as it can be had
/// without a JPEG 2000 decoder.
///
/// An element whose tag is no known icon type is an `UnsupportedOSType`. A
/// PNG payload decodes as that file does, and must come out with the raster
/// size of the icon type, or it is a `DimensionMismatch`; a JPEG 2000 payload
/// in its place is an `UnsupportedPayload`. A run-length payload gives an RGB
/// image, and is an `InvalidRLE` where the stream does not decode. A mask
/// payload gives an alpha image of its own bytes, a one-bit payload a gray
/// image, and a one-bit payload with mask a gray image with alpha; each is a
/// `PayloadSize` where its length is not what the raster takes.
pub open spec fn spec_decode_image(e: ElementView) -> Result<ImageView, IcnsError> {
    match e.icon_type() {
        None => Err(IcnsError::UnsupportedOSType),
        Some(t) => {
            let width = t.spec_pixel_width() as u32;
            let height = t.spec_pixel_height() as u32;
            let n = t.spec_num_pixels();
            match t.spec_encoding() {
                Encoding::JP2PNG => if spec_is_jp2(e.data) {
                    Err(IcnsError::UnsupportedPayload)
                } else {
                    spec_fit(t, spec_read_png(e.data))
                },
                Encoding::RLE24 => match spec_decode(e.data, n) {
                    None => Err(IcnsError::InvalidRLE),
                    Some(p) => Ok(
                        ImageView {
                            format: PixelFormat::RGB,
                            width,
                            height,
                            data: interleave(seq![p.r, p.g, p.b], n),
                        },
                    ),
                },
                Encoding::Mask8 => if e.data.len() != n {
                    Err(IcnsError::PayloadSize)
                } else {
                    Ok(ImageView { format: PixelFormat::Alpha, width, height, data: e.data })
                },
                Encoding::Mono => if e.data.len() != n / 8 {
                    Err(IcnsError::PayloadSize)
                } else {
                    Ok(
                        ImageView {
                            format: PixelFormat::Gray,
                            width,
                            height,
                            data: spec_decode_mono(e.data),
                        },
                    )
                },
                Encoding::MonoA => if e.data.len() != n / 4 {
                    Err(IcnsError::PayloadSize)
                } else {
                    Ok(
                        ImageView {
                            format: PixelFormat::GrayAlpha,
                            width,
                            height,
                            data: interleave(
                                seq![
                                    spec_decode_mono(e.data.subrange(0, n as int / 8)),
                                    spec_decode_mask(e.data.subrange(n as int / 8, n as int / 4)),
                                ],
                                n,
                            ),
                        },
                    )
                },
            }
        },
    }
}

/// The image that an element's payload holds, given what a JPEG 2000
/// decoder reported of the payload: `info` is what it read from the headers,
/// if it accepted them, and `pixels` the raster that it made, if it made
/// one.
///
/// Where the element takes that decoder, the image is the one that comes of
/// the report, and must have the raster size of the icon type, or it is a
/// `DimensionMismatch`. Where it takes none, the report counts for nothing.
pub open spec fn spec_decode_image_with_jp2(
    e: ElementView,
    info: Option<Jp2Info>,
    pixels: Option<Seq<u8>>,
) -> Result<ImageView, IcnsError> {
    if spec_takes_jp2(e) {
        spec_fit(e.icon_type().unwrap(), spec_jp2_image(info, pixels))
    } else {
        spec_decode_image(e)
    }
}

/// The image that a color element and its mask element hold together.
///
/// The color element must be of a known icon type, or it is an
/// `UnsupportedOSType`; of one that takes a mask, or it is an
/// `UnsupportedPayload`; and the mask element must carry the tag of that
/// mask, or it is an `UnsupportedOSType`. The mask must have one byte for
/// each pixel, or it is a `PayloadSize`, and the run-length stream must
/// decode, or it is an `InvalidRLE`. The image is RGBA: color from the
/// stream, alpha from the mask.
pub open spec fn spec_decode_image_with_mask(e: ElementView, mask: ElementView) -> Result<
    ImageView,
    IcnsError,
> {
    match e.icon_type() {
        None => Err(IcnsError::UnsupportedOSType),
        Some(t) => match t.spec_mask_type() {
            None => Err(IcnsError::UnsupportedPayload),
            Some(m) => {
                let n = t.spec_num_pixels();
                if mask.ostype != m.spec_ostype() {
                    Err(IcnsError::UnsupportedOSType)
                } else if mask.data.len() != n {
                    Err(IcnsError::PayloadSize)
                } else {
                    match spec_decode(e.data, n) {
                        None => Err(IcnsError::InvalidRLE),
                        Some(p) => Ok(
                            ImageView {
                                format: PixelFormat::RGBA,
                                width: t.spec_pixel_width() as u32,
                                height: t.spec_pixel_height() as u32,
                                data: interleave(seq![p.r, p.g, p.b, mask.data], n),
                            },
                        ),
                    }
                }
            },
        },
    }
}

/// The element that holds a payload under an icon type.
pub open spec fn spec_element(icon_type: IconType, data: Seq<u8>) -> ElementView {
    ElementView { ostype: icon_type.spec_ostype(), data }
}

/// An alpha image goes into a mask element byte for byte, and comes out of
/// it as it went in.
pub proof fn lemma_mask_round_trip(image: ImageView, icon_type: IconType)
    requires
        image.wf(),
        image.format == PixelFormat::Alpha,
        icon_type.spec_encoding() == Encoding::Mask8,
        image.width == icon_type.spec_pixel_width(),
        image.height == icon_type.spec_pixel_height(),
    ensures
        spec_encode_payload(image, icon_type) == Ok::<Seq<u8>, IcnsError>(image.data),
        spec_decode_image(spec_element(icon_type, image.data)) == Ok::<ImageView, IcnsError>(
            image,
        ),
{
    image.lemma_data_planes();
    icon_type.lemma_ostype_round_trip();
}

/// An image that goes into a run-length element comes out of it as the RGB
/// image of the same colors.
pub proof fn lemma_rle_round_trip(image: ImageView, icon_type: IconType)
    requires
        image.wf(),
        icon_type.spec_encoding() == Encoding::RLE24,
        image.width == icon_type.spec_pixel_width(),
        image.height == icon_type.spec_pixel_height(),
    ensures
        spec_encode_payload(image, icon_type) == Ok::<Seq<u8>, IcnsError>(
            spec_encode(image.color_planes()),
        ),
        spec_decode_image(spec_element(icon_type, spec_encode(image.color_planes()))) == Ok::<
            ImageView,
            IcnsError,
        >(image.converted(PixelFormat::RGB)),
{
    let planes = image.color_planes();
    let n = image.num_pixels();
    let rgb = image.converted(PixelFormat::RGB);
    icon_type.lemma_ostype_round_trip();
    icon_type.lemma_mask_pairing();
    assert(n >= 256) by (nonlinear_arith)
        requires
            n == image.width * image.height,
            image.width >= 16,
            image.height >= 16,
    ;
    lemma_decode_encode(planes);
    image.lemma_converted_wf(PixelFormat::RGB);
    image.lemma_converted_planes(PixelFormat::RGB);
    rgb.lemma_data_planes();
    assert(n * 3 == 3 * n);
    lemma_interleave_planes(rgb.data, seq![planes.r, planes.g, planes.b], n);
}

/// An image that goes into a one-bit element comes out of it as a gray
/// image in black and white: black where the pixel was darker than 128.
pub proof fn lemma_mono_round_trip(image: ImageView)
    requires
        image.wf(),
        image.width == 32,
        image.height == 32,
    ensures
        spec_encode_payload(image, IconType::Mono_32x32) matches Ok(data) && spec_decode_image(
            spec_element(IconType::Mono_32x32, data),
        ) == Ok::<ImageView, IcnsError>(
            ImageView {
                format: PixelFormat::Gray,
                width: 32,
                height: 32,
                data: Seq::new(
                    1024,
                    |i: int|
                        if image.pixel(i).spec_gray() < 128 {
                            0u8
                        } else {
                            255u8
                        },
                ),
            },
        ),
{
    let bits = spec_threshold(image.grays(), true);
    let data = spec_pack(bits);
    IconType::Mono_32x32.lemma_ostype_round_trip();
    assert(image.num_pixels() == 1024) by (nonlinear_arith)
        requires
            image.num_pixels() == image.width * image.height,
            image.width == 32,
            image.height == 32,
    ;
    lemma_unpack_pack(bits);
    assert(spec_decode_mono(data) =~= Seq::new(
        1024,
        |i: int|
            if image.pixel(i).spec_gray() < 128 {
                0u8
            } else {
                255u8
            },
    ));
}

/// An image that goes into a one-bit element with mask comes out of it as
/// a gray image with alpha, both in black and white: black where the pixel
/// was darker than 128, opaque where its alpha was 128 or more.
pub proof fn lemma_mono_alpha_round_trip(image: ImageView)
    requires
        image.wf(),
        image.width == 32,
        image.height == 32,
    ensures
        spec_encode_payload(image, IconType::MonoA_32x32) matches Ok(data) && spec_decode_image(
            spec_element(IconType::MonoA_32x32, data),
        ) == Ok::<ImageView, IcnsError>(
            ImageView {
                format: PixelFormat::GrayAlpha,
                width: 32,
                height: 32,
                data: interleave(
                    seq![
                        spec_spread(spec_threshold(image.grays(), true), true),
                        spec_spread(spec_threshold(image.alphas(), false), false),
                    ],
                    1024,
                ),
            },
        ),
{
    let ink_bits = spec_threshold(image.grays(), true);
    let mask_bits = spec_threshold(image.alphas(), false);
    let data = spec_encode_mono(image.grays()) + spec_encode_mask(image.alphas());
    IconType::MonoA_32x32.lemma_ostype_round_trip();
    assert(image.num_pixels() == 1024) by (nonlinear_arith)
        requires
            image.num_pixels() == image.width * image.height,
            image.width == 32,
            image.height == 32,
    ;
    lemma_unpack_pack(ink_bits);
    lemma_unpack_pack(mask_bits);
    assert(data.subrange(0, 128) =~= spec_pack(ink_bits));
    assert(data.subrange(128, 256) =~= spec_pack(mask_bits));
}

/// The payload of the 128 by 128 run-length type begins with four zero
/// bytes, whatever the image.
pub proof fn lemma_large_rle_prefix(image: ImageView)
    requires
        image.wf(),
        image.width == 128,
        image.height == 128,
    ensures
        spec_encode_payload(image, IconType::RGB24_128x128) matches Ok(data) && data.len() >= 4
            && data[0] == 0 && data[1] == 0 && data[2] == 0 && data[3] == 0,
{
    lemma_encode_prefix(image.color_planes());
}

/// The number of pixels of an icon type.
fn num_pixels(icon_type: IconType) -> (n: usize)
    ensures
        n == icon_type.spec_num_pixels(),
        0 < n <= 1024 * 1024,
        icon_type.spec_pixel_width() <= 1024,
        icon_type.spec_pixel_height() <= 1024,
        icon_type.spec_encoding() == Encoding::Mono || icon_type.spec_encoding()
            == Encoding::MonoA ==> n == 1024,
{
    let width = icon_type.pixel_width();
    let height = icon_type.pixel_height();
    assert(width == 32 && height == 32 ==> width * height == 1024);
    assert(0 < width * height <= 1024 * 1024) by (nonlinear_arith)
        requires
            0 < width <= 1024,
            0 < height <= 1024,
    ;
    (width * height) as usize
}

/// The run-length stream for the colors of an image.
fn encode_colors(image: &Image, n: usize) -> (payload: Vec<u8>)
    requires
        image.wf(),
        n == image@.num_pixels(),
        n <= 1024 * 1024,
    ensures
        payload@ == spec_encode(image@.color_planes()),
{
    proof {
        image@.lemma_data_planes();
    }
    match image.pixel_format() {
        PixelFormat::RGBA => encode_rle(image.data(), 4, n),
        PixelFormat::RGB => encode_rle(image.data(), 3, n),
        _ => {
            let rgb = image.convert_to(PixelFormat::RGB);
            proof {
                image@.lemma_converted_planes(PixelFormat::RGB);
                rgb@.lemma_data_planes();
            }
            encode_rle(rgb.data(), 3, n)
        },
    }
}

/// The bitmap of the gray values of an image, and after it, where `masked`
/// is set, the bitmap of its alpha.
fn encode_bitmap(image: &Image, n: usize, masked: bool) -> (payload: Vec<u8>)
    requires
        image.wf(),
        n == image@.num_pixels(),
        n <= 1024 * 1024,
        n % 8 == 0,
    ensures
        payload@ == spec_encode_mono(image@.grays()) + (if masked {
            spec_encode_mask(image@.alphas())
        } else {
            Seq::empty()
        }),
{
    let mut payload: Vec<u8> = Vec::new();
    if masked {
        let both = image.convert_to(PixelFormat::GrayAlpha);
        proof {
            image@.lemma_converted_planes(PixelFormat::GrayAlpha);
            both@.lemma_data_planes();
        }
        pack_plane(&mut payload, both.data(), 2, 0, n, true);
        pack_plane(&mut payload, both.data(), 2, 1, n, false);
        assert(payload@ =~= spec_encode_mono(image@.grays()) + spec_encode_mask(
            image@.alphas(),
        ));
    } else {
        let gray = image.convert_to(PixelFormat::Gray);
        proof {
            image@.lemma_converted_planes(PixelFormat::Gray);
            gray@.lemma_data_planes();
        }
        pack_plane(&mut payload, gray.data(), 1, 0, n, true);
        assert(payload@ =~= spec_encode_mono(image@.grays()) + Seq::<u8>::empty());
    }
    payload
}

/// The decoded file as the image of an icon type, where it has the raster
/// size of the type.
fn fit(icon_type: IconType, decoded: Result<Image, IcnsError>) -> (r: Result<Image, IcnsError>)
    ensures
        spec_outcome(r) == spec_fit(icon_type, spec_outcome(decoded)),
        r matches Ok(image) ==> decoded == Ok::<Image, IcnsError>(image),
{
    match decoded {
        Ok(image) => {
            if image.width() != icon_type.pixel_width() || image.height()
                != icon_type.pixel_height() {
                Err(IcnsError::DimensionMismatch)
            } else {
                Ok(image)
            }
        },
        Err(e) => Err(e),
    }
}

/// Whether a payload begins like a JPEG 2000 file.
fn is_jp2(data: &[u8]) -> (r: bool)
    ensures
        r == spec_is_jp2(data@),
{
    let r = data.len() >= 12 && data[0] == 0x00 && data[1] == 0x00 && data[2] == 0x00 && data[3]
        == 0x0C && data[4] == 0x6A && data[5] == 0x50 && data[6] == 0x20 && data[7] == 0x20
        && data[8] == 0x0D && data[9] == 0x0A && data[10] == 0x87 && data[11] == 0x0A;
    proof {
        if data@.len() >= 12 {
            let head = data@.subrange(0, 12);
            let magic = spec_jp2_magic();
            if r {
                assert(head =~= magic);
            } else {
                assert(head[0] == data@[0] && head[1] == data@[1] && head[2] == data@[2]
                    && head[3] == data@[3] && head[4] == data@[4] && head[5] == data@[5]
                    && head[6] == data@[6] && head[7] == data@[7] && head[8] == data@[8]
                    && head[9] == data@[9] && head[10] == data@[10] && head[11] == data@[11]);
            }
        }
    }
    r
}

/// One entry in an ICNS file.  Depending on the resource type, this may
/// represent an icon, or part of an icon (such as an alpha mask, or color
/// data without the mask).
pub struct IconElement {
    ostype: OSType,
    data: Vec<u8>,
}

impl View for IconElement {
    type V = ElementView;

    closed spec fn view(&self) -> ElementView {
        ElementView { ostype: self.ostype@, data: self.data@ }
    }
}

impl DeepView for IconElement {
    type V = ElementView;

    open spec fn deep_view(&self) -> ElementView {
        self@
    }
}

impl IconElement {
    /// The tag of an element has four bytes.
    pub proof fn lemma_wf(&self)
        ensures
            self@.wf(),
    {
    }

    /// Creates an icon element with the given OSType and data payload.
    pub fn new(ostype: OSType, data: Vec<u8>) -> (e: IconElement)
        ensures
            e@ == (ElementView { ostype: ostype@, data: data@ }),
    {
        IconElement { ostype, data }
    }

    /// Creates an icon element that encodes the given image as the given icon
    /// type.  Returns an error if the image has the wrong dimensions for that
    /// icon type.
    pub fn encode_image_with_type(image: &Image, icon_type: IconType) -> (r: Result<
        IconElement,
        IcnsError,
    >)
        requires
            image.wf(),
        ensures
            match r {
                Ok(e) => spec_encode_payload(image@, icon_type) == Ok::<Seq<u8>, IcnsError>(
                    e@.data,
                ) && e@.ostype == icon_type.spec_ostype(),
                Err(err) => spec_encode_payload(image@, icon_type) == Err::<Seq<u8>, IcnsError>(
                    err,
                ),
            },
    {
        let width = icon_type.pixel_width();
        let height = icon_type.pixel_height();
        if image.width() != width || image.height() != height {
            return Err(IcnsError::DimensionMismatch);
        }
        let n = num_pixels(icon_type);
        let data = match icon_type.encoding() {
            Encoding::JP2PNG => {
                let mut file: Vec<u8> = Vec::new();
                match image.write_png(&mut file) {
                    Ok(()) => {},
                    Err(e) => {
                        return Err(e);
                    },
                }
                assert(file@ =~= spec_write_png(image@).unwrap());
                file
            },
            Encoding::RLE24 => encode_colors(image, n),
            Encoding::Mask8 => {
                let mask = image.convert_to(PixelFormat::Alpha);
                proof {
                    image@.lemma_converted_planes(PixelFormat::Alpha);
                    mask@.lemma_data_planes();
                }
                let data = mask.into_data().into_vec();
                data
            },
            Encoding::Mono => {
                let data = encode_bitmap(image, n, false);
                assert(data@ =~= spec_encode_mono(image@.grays()));
                data
            },
            Encoding::MonoA => encode_bitmap(image, n, true),
        };
        Ok(IconElement::new(icon_type.ostype(), data))
    }

    /// Decodes the icon element into an image.  Returns an error if this
    /// element does not represent an icon type supported by this library, or
    /// if the data is malformed.
    ///
    /// A payload that is a JPEG 2000 file is an `UnsupportedPayload` here:
    /// [`IconElement::decode_image_with_jp2`] takes what a decoder made of
    /// it.
    pub fn decode_image(&self) -> (r: Result<Image, IcnsError>)
        ensures
            spec_outcome(r) == spec_decode_image(self@),
            r matches Ok(image) ==> image.wf(),
    {
        let icon_type = match self.icon_type() {
            Some(t) => t,
            None => {
                return Err(IcnsError::UnsupportedOSType);
            },
        };
        let width = icon_type.pixel_width();
        let height = icon_type.pixel_height();
        let n = num_pixels(icon_type);
        let payload = self.data.as_slice();
        match icon_type.encoding() {
            Encoding::JP2PNG => {
                if is_jp2(payload) {
                    Err(IcnsError::UnsupportedPayload)
                } else {
                    fit(icon_type, Image::read_png(payload))
                }
            },
            Encoding::RLE24 => {
                let mut data = vec![0u8; 3 * n];
                match decode_rle(payload, &mut data, 3, n) {
                    Ok(()) => {
                        proof {
                            let p = spec_decode(payload@, n as nat).unwrap();
                            lemma_interleave_planes(data@, seq![p.r, p.g, p.b], n as nat);
                        }
                        Image::from_data(PixelFormat::RGB, width, height, data)
                    },
                    Err(e) => Err(e),
                }
            },
            Encoding::Mask8 => {
                if payload.len() != n {
                    Err(IcnsError::PayloadSize)
                } else {
                    Image::from_data(PixelFormat::Alpha, width, height, slice_to_vec(payload))
                }
            },
            Encoding::Mono => {
                if payload.len() != n / 8 {
                    Err(IcnsError::PayloadSize)
                } else {
                    Image::from_data(PixelFormat::Gray, width, height, decode_mono(payload))
                }
            },
            Encoding::MonoA => {
                if payload.len() != n / 4 {
                    Err(IcnsError::PayloadSize)
                } else {
                    let data = decode_mono_alpha(payload);
                    proof {
                        let ink = spec_decode_mono(payload@.subrange(0, n as int / 8));
                        let mask = spec_decode_mask(payload@.subrange(n as int / 8, n as int / 4));
                        lemma_interleave_planes(data@, seq![ink, mask], n as nat);
                    }
                    Image::from_data(PixelFormat::GrayAlpha, width, height, data)
                }
            },
        }
    }

    /// Returns true if decoding this element takes a JPEG 2000 decoder: its
    /// icon type holds a PNG or JPEG 2000 file, and its payload begins like
    /// the second.
    pub fn takes_jp2(&self) -> (r: bool)
        ensures
            r == spec_takes_jp2(self@),
    {
        match self.icon_type() {
            Some(icon_type) => match icon_type.encoding() {
                Encoding::JP2PNG => is_jp2(self.data.as_slice()),
                _ => false,
            },
            None => false,
        }
    }

    /// Decodes the icon element into an image, given what a JPEG 2000
    /// decoder reported of its payload: `info` is what it read from the
    /// headers, or `None` where it refused them, and `pixels` is the raster
    /// that it made, or `None` where it made none. Where the element takes no
    /// such decoder, this is [`IconElement::decode_image`].
    pub fn decode_image_with_jp2(&self, info: Option<Jp2Info>, pixels: Option<Vec<u8>>) -> (r:
        Result<Image, IcnsError>)
        ensures
            spec_outcome(r) == spec_decode_image_with_jp2(self@, info, spec_pixels(pixels)),
            r matches Ok(image) ==> image.wf(),
    {
        if self.takes_jp2() {
            match self.icon_type() {
                Some(icon_type) => fit(icon_type, Image::read_jp2(info, pixels)),
                None => Err(IcnsError::UnsupportedOSType),
            }
        } else {
            self.decode_image()
        }
    }

    /// Decodes the icon element and its mask element into one image with
    /// alpha. Returns an error if this element is of no icon type that takes
    /// a mask, if the mask element is not of the mask type that goes with it,
    /// or if the data of either is malformed.
    pub fn decode_image_with_mask(&self, mask: &IconElement) -> (r: Result<Image, IcnsError>)
        ensures
            spec_outcome(r) == spec_decode_image_with_mask(self@, mask@),
            r matches Ok(image) ==> image.wf(),
    {
        let icon_type = match self.icon_type() {
            Some(t) => t,
            None => {
                return Err(IcnsError::UnsupportedOSType);
            },
        };
        let mask_type = match icon_type.mask_type() {
            Some(m) => m,
            None => {
                return Err(IcnsError::UnsupportedPayload);
            },
        };
        let wanted = mask_type.ostype();
        proof {
            mask.ostype.lemma_eq_is_bytewise(wanted);
        }
        if mask.ostype != wanted {
            return Err(IcnsError::UnsupportedOSType);
        }
        let width = icon_type.pixel_width();
        let height = icon_type.pixel_height();
        let n = num_pixels(icon_type);
        let alpha = mask.data.as_slice();
        if alpha.len() != n {
            return Err(IcnsError::PayloadSize);
        }
        let mut data = vec![0u8; 4 * n];
        match decode_rle(self.data.as_slice(), &mut data, 4, n) {
            Ok(()) => {},
            Err(e) => {
                return Err(e);
            },
        }
        let ghost p = spec_decode(self@.data, n as nat).unwrap();
        let mut i: usize = 0;
        while i < n
            invariant
                i <= n,
                n == alpha@.len(),
                data@.len() == 4 * n,
                plane(data@, 4, 0, n as nat) == p.r,
                plane(data@, 4, 1, n as nat) == p.g,
                plane(data@, 4, 2, n as nat) == p.b,
                plane(data@, 4, 3, n as nat).subrange(0, i as int) == alpha@.subrange(0, i as int),
            decreases n - i,
        {
            let ghost before = plane(data@, 4, 3, n as nat);
            put(&mut data, 4, 3, i, alpha[i], Ghost(n as nat));
            proof {
                let after = plane(data@, 4, 3, n as nat);
                assert(after == before.update(i as int, alpha@[i as int]));
                assert(after.subrange(0, i + 1) =~= before.subrange(0, i as int).push(
                    alpha@[i as int],
                ));
                assert(alpha@.subrange(0, i + 1) =~= alpha@.subrange(0, i as int).push(
                    alpha@[i as int],
                ));
            }
            i += 1;
        }
        proof {
            assert(plane(data@, 4, 3, n as nat) =~= alpha@) by {
                assert(plane(data@, 4, 3, n as nat).subrange(0, n as int) =~= plane(
                    data@,
                    4,
                    3,
                    n as nat,
                ));
                assert(alpha@.subrange(0, n as int) =~= alpha@);
            }
            lemma_interleave_planes(data@, seq![p.r, p.g, p.b, alpha@], n as nat);
        }
        Image::from_data(PixelFormat::RGBA, width, height, data)
    }

    /// Returns the OSType for this element (e.g. `it32` or `t8mk`).
    pub fn ostype(&self) -> (t: OSType)
        ensures
            t@ == self@.ostype,
    {
        self.ostype
    }

    /// Returns the type of icon encoded by this element, or `None` if this
    /// element does not encode a supported icon type.
    pub fn icon_type(&self) -> (t: Option<IconType>)
        ensures
            t == self@.icon_type(),
    {
        IconType::from_ostype(self.ostype)
    }

    /// Returns the encoded data for this element.
    pub fn data(&self) -> (data: &[u8])
        ensures
            data@ == self@.data,
    {
        self.data.as_slice()
    }

    /// Returns the encoded length of the element, in bytes, including the
    /// length of the header.
    pub fn total_length(&self) -> (len: u32)
        requires
            self@.framed_len() <= u32::MAX,
        ensures
            len == self@.framed_len(),
    {
        8 + (self.data.len() as u32)
    }

    /// Reads the icon element that stands at the front of `input`. What
    /// follows the element is not looked at.
    pub fn read(input: &[u8]) -> (r: Result<IconElement, IcnsError>)
        ensures
            match r {
                Ok(e) => spec_read_element(input@) == Ok::<ElementView, IcnsError>(e@),
                Err(err) => spec_read_element(input@) == Err::<ElementView, IcnsError>(err),
            },
    {
        if input.len() < 8 {
            return Err(IcnsError::IoError);
        }
        let ostype = OSType([input[0], input[1], input[2], input[3]]);
        let len = read_be_u32(slice_subrange(input, 4, 8));
        if len < 8 {
            return Err(IcnsError::InvalidLength);
        }
        if input.len() < len as usize {
            return Err(IcnsError::IoError);
        }
        let data = slice_to_vec(slice_subrange(input, 8, len as usize));
        assert(ostype@ =~= input@.subrange(0, 4));
        Ok(IconElement { ostype, data })
    }

    /// Writes the icon element as it stands in a file, appending to
    /// `output`. A payload too long for the 32-bit length field is an
    /// `InvalidLength`, and nothing is written.
    pub fn write(&self, output: &mut Vec<u8>) -> (r: Result<(), IcnsError>)
        ensures
            match r {
                Ok(()) => self@.framed_len() <= u32::MAX && final(output)@ == old(output)@
                    + self@.framed(),
                Err(e) => e == IcnsError::InvalidLength && self@.framed_len() > u32::MAX
                    && final(output)@ == old(output)@,
            },
    {
        if self.data.len() > 0xffff_fff7 {
            return Err(IcnsError::InvalidLength);
        }
        let len = be_u32_bytes(self.total_length());
        output.push(self.ostype.0[0]);
        output.push(self.ostype.0[1]);
        output.push(self.ostype.0[2]);
        output.push(self.ostype.0[3]);
        output.push(len[0]);
        output.push(len[1]);
        output.push(len[2]);
        output.push(len[3]);
        output.extend_from_slice(self.data.as_slice());
        assert(output@ =~= old(output)@ + self@.framed());
        Ok(())
    }
}

} // verus!
