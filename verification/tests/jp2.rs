use hayro_jpeg2000::{ColorSpace, DecodeSettings, DecoderContext};
use icns::jp2io::{Jp2ColorSpace, Jp2Info};
use icns::{IcnsError, IconElement, IconFamily, IconType, Image, OSType, PixelFormat};

/// Asks the decoder about a file: what it reads from the headers, and the
/// raster that it makes where the library has a format for it.
fn decode(input: &[u8]) -> (Option<Jp2Info>, Option<Vec<u8>>) {
    let image = match hayro_jpeg2000::Image::new(input, &DecodeSettings::default()) {
        Ok(image) => image,
        Err(_) => return (None, None),
    };
    let color_space = match image.color_space() {
        ColorSpace::Gray => Jp2ColorSpace::Gray,
        ColorSpace::RGB => Jp2ColorSpace::Rgb,
        ColorSpace::CMYK => Jp2ColorSpace::Cmyk,
        ColorSpace::Unknown { .. } => Jp2ColorSpace::Unknown,
        ColorSpace::Icc { .. } => Jp2ColorSpace::Icc,
    };
    let (has_alpha, width, height) = (image.has_alpha(), image.width(), image.height());
    let info = Jp2Info { color_space, has_alpha, width, height };
    if info.pixel_format().is_err() {
        return (Some(info), None);
    }
    let mut context = DecoderContext::default();
    let pixels = image.decode(&mut context).ok().map(|decoded| decoded.data_u8());
    (Some(info), pixels)
}

fn read(input: &[u8]) -> Result<Image, IcnsError> {
    let (info, pixels) = decode(input);
    Image::read_jp2(info, pixels)
}

fn decode_element(element: &IconElement) -> Result<Image, IcnsError> {
    let (info, pixels) = if element.takes_jp2() {
        decode(element.data())
    } else {
        (None, None)
    };
    element.decode_image_with_jp2(info, pixels)
}

/// A JPEG 2000 codestream of one tile without wavelet levels, whose single
/// packet per component is empty: every sample decodes to the middle value.
fn codestream(width: u32, height: u32, components: u16) -> Vec<u8> {
    let mut out: Vec<u8> = vec![0xFF, 0x4F];
    // SIZ
    out.extend_from_slice(&[0xFF, 0x51]);
    out.extend_from_slice(&(38 + 3 * components).to_be_bytes());
    out.extend_from_slice(&[0, 0]);
    for value in [width, height, 0, 0, width, height, 0, 0].iter() {
        out.extend_from_slice(&value.to_be_bytes());
    }
    out.extend_from_slice(&components.to_be_bytes());
    for _ in 0..components {
        out.extend_from_slice(&[7, 1, 1]);
    }
    // COD: no precincts, LRCP, one layer, no color transform, no levels,
    // 64 by 64 code blocks, reversible filter.
    out.extend_from_slice(&[0xFF, 0x52, 0, 12, 0, 0, 0, 1, 0, 0, 4, 4, 0, 1]);
    // QCD: no quantization, two guard bits, exponent eight.
    out.extend_from_slice(&[0xFF, 0x5C, 0, 4, 0x40, 0x40]);
    // SOT, SOD, one empty packet per component, EOC.
    let tile_length = 12 + 2 + components as u32;
    out.extend_from_slice(&[0xFF, 0x90, 0, 10, 0, 0]);
    out.extend_from_slice(&tile_length.to_be_bytes());
    out.extend_from_slice(&[0, 1]);
    out.extend_from_slice(&[0xFF, 0x93]);
    for _ in 0..components {
        out.push(0);
    }
    out.extend_from_slice(&[0xFF, 0xD9]);
    out
}

fn boxed(kind: &[u8; 4], content: &[u8]) -> Vec<u8> {
    let mut out = ((8 + content.len()) as u32).to_be_bytes().to_vec();
    out.extend_from_slice(kind);
    out.extend_from_slice(content);
    out
}

/// A JP2 file around a codestream, with the given enumerated color space.
fn jp2_file(width: u32, height: u32, components: u16, color_space: u32) -> Vec<u8> {
    let mut out = boxed(b"jP  ", &[0x0D, 0x0A, 0x87, 0x0A]);
    out.extend(boxed(b"ftyp", b"jp2 \0\0\0\0jp2 "));
    let mut ihdr: Vec<u8> = Vec::new();
    ihdr.extend_from_slice(&height.to_be_bytes());
    ihdr.extend_from_slice(&width.to_be_bytes());
    ihdr.extend_from_slice(&components.to_be_bytes());
    ihdr.extend_from_slice(&[7, 7, 0, 0]);
    let mut colr: Vec<u8> = vec![1, 0, 0];
    colr.extend_from_slice(&color_space.to_be_bytes());
    let mut header = boxed(b"ihdr", &ihdr);
    header.extend(boxed(b"colr", &colr));
    out.extend(boxed(b"jp2h", &header));
    out.extend(boxed(b"jp2c", &codestream(width, height, components)));
    out
}

const GREYSCALE: u32 = 17;
const SRGB: u32 = 16;
const CMYK: u32 = 12;

#[test]
fn read_jp2_gray_codestream() {
    let bytes = codestream(16, 16, 1);
    let (header, pixels) = decode(&bytes);
    assert_eq!(header, Some(info(Jp2ColorSpace::Gray, false, 16, 16)));
    assert_eq!(pixels, Some(vec![128u8; 256]));
    let image = read(&bytes).expect("failed to read JPEG 2000");
    assert_eq!(image.pixel_format(), PixelFormat::Gray);
    assert_eq!((image.width(), image.height()), (16, 16));
    assert_eq!(image.data(), &[128u8; 256][..]);
}

#[test]
fn read_jp2_gray_file() {
    let file = jp2_file(3, 5, 1, GREYSCALE);
    assert_eq!(&file[..12], &[0x00, 0x00, 0x00, 0x0C, 0x6A, 0x50, 0x20, 0x20, 0x0D, 0x0A, 0x87, 0x0A]);
    let image = read(&file).expect("failed to read JPEG 2000");
    assert_eq!(image.pixel_format(), PixelFormat::Gray);
    assert_eq!((image.width(), image.height()), (3, 5));
    assert_eq!(image.data(), &[128u8; 15][..]);
}

#[test]
fn read_jp2_rgb_file() {
    let image = read(&jp2_file(4, 2, 3, SRGB)).expect("failed to read JPEG 2000");
    assert_eq!(image.pixel_format(), PixelFormat::RGB);
    assert_eq!((image.width(), image.height()), (4, 2));
    assert_eq!(image.data(), &[128u8; 24][..]);
}

#[test]
fn read_jp2_cmyk_file_is_unsupported() {
    let file = jp2_file(4, 2, 4, CMYK);
    assert_eq!(decode(&file), (Some(info(Jp2ColorSpace::Cmyk, false, 4, 2)), None));
    assert_eq!(read(&file).err(), Some(IcnsError::UnsupportedPayload));
}

#[test]
fn read_jp2_cut_short_fails() {
    let file = jp2_file(16, 16, 1, GREYSCALE);
    assert_eq!(read(&file[..40]).err(), Some(IcnsError::IoError));
}

#[test]
fn read_jp2_rejects_what_is_no_jpeg_2000() {
    assert_eq!(read(b"").err(), Some(IcnsError::IoError));
    assert_eq!(read(b"not a JPEG 2000 file").err(), Some(IcnsError::IoError));
    let magic_only = [0x00u8, 0x00, 0x00, 0x0C, 0x6A, 0x50, 0x20, 0x20, 0x0D, 0x0A, 0x87, 0x0A];
    assert_eq!(read(&magic_only).err(), Some(IcnsError::IoError));
    assert_eq!(Image::read_jp2(None, None).err(), Some(IcnsError::IoError));
    assert_eq!(Image::read_jp2(None, Some(vec![1, 2, 3])).err(), Some(IcnsError::IoError));
}

#[test]
fn decode_element_with_jpeg_2000_payload() {
    let element = IconElement::new(OSType(*b"icp4"), jp2_file(16, 16, 3, SRGB));
    assert_eq!(element.icon_type(), Some(IconType::RGBA32_16x16));
    assert!(element.takes_jp2());
    let image = decode_element(&element).expect("failed to decode image");
    assert_eq!(image.pixel_format(), PixelFormat::RGB);
    assert_eq!((image.width(), image.height()), (16, 16));
    assert_eq!(image.data(), &[128u8; 768][..]);
}

#[test]
fn decode_element_with_jpeg_2000_payload_and_no_decoder() {
    let element = IconElement::new(OSType(*b"icp4"), jp2_file(16, 16, 3, SRGB));
    assert_eq!(element.decode_image().err(), Some(IcnsError::UnsupportedPayload));
    assert_eq!(element.decode_image_with_jp2(None, None).err(), Some(IcnsError::IoError));
    let header = info(Jp2ColorSpace::Rgb, false, 16, 16);
    assert_eq!(
        element.decode_image_with_jp2(Some(header), None).err(),
        Some(IcnsError::IoError)
    );
}

#[test]
fn decode_element_with_jpeg_2000_payload_of_the_wrong_size() {
    let element = IconElement::new(OSType(*b"icp5"), jp2_file(16, 16, 3, SRGB));
    assert_eq!(decode_element(&element).err(), Some(IcnsError::DimensionMismatch));
    let element = IconElement::new(OSType(*b"icp4"), jp2_file(16, 16, 3, SRGB));
    let header = info(Jp2ColorSpace::Gray, true, 16, 32);
    assert_eq!(
        element.decode_image_with_jp2(Some(header), Some(vec![0u8; 1024])).err(),
        Some(IcnsError::DimensionMismatch)
    );
}

#[test]
fn decode_element_takes_a_bare_codestream_for_no_jpeg_2000() {
    // Without the signature box the payload goes to the PNG decoder.
    let element = IconElement::new(OSType(*b"icp4"), codestream(16, 16, 1));
    assert!(!element.takes_jp2());
    assert_eq!(element.decode_image().err(), Some(IcnsError::IoError));
    assert_eq!(decode_element(&element).err(), Some(IcnsError::IoError));
}

#[test]
fn takes_jp2_only_for_a_jpeg_2000_payload_under_a_png_type() {
    let file = jp2_file(16, 16, 1, GREYSCALE);
    assert!(IconElement::new(OSType(*b"ic07"), file.clone()).takes_jp2());
    assert!(!IconElement::new(OSType(*b"ic07"), file[..11].to_vec()).takes_jp2());
    assert!(!IconElement::new(OSType(*b"is32"), file.clone()).takes_jp2());
    assert!(!IconElement::new(OSType(*b"s8mk"), file.clone()).takes_jp2());
    assert!(!IconElement::new(OSType(*b"ICON"), file.clone()).takes_jp2());
    assert!(!IconElement::new(OSType(*b"quux"), file.clone()).takes_jp2());
    let mut almost = file.clone();
    almost[11] = 0x0B;
    assert!(!IconElement::new(OSType(*b"ic07"), almost).takes_jp2());
}

#[test]
fn a_decoders_report_counts_for_nothing_where_none_is_taken() {
    let mask = IconElement::new(OSType(*b"s8mk"), vec![9u8; 256]);
    let header = info(Jp2ColorSpace::Rgb, true, 16, 16);
    let image = mask.decode_image_with_jp2(Some(header), Some(vec![1u8; 1024])).unwrap();
    assert_eq!(image.pixel_format(), PixelFormat::Alpha);
    assert_eq!(image.data(), &[9u8; 256][..]);
    let unknown = IconElement::new(OSType(*b"quux"), vec![9u8; 256]);
    assert_eq!(
        unknown.decode_image_with_jp2(Some(header), Some(vec![1u8; 1024])).err(),
        Some(IcnsError::UnsupportedOSType)
    );
}

#[test]
fn family_hands_out_the_payload_for_the_decoder() {
    let file = jp2_file(16, 16, 3, SRGB);
    let mut family = IconFamily::new();
    family.elements.push(IconElement::new(OSType(*b"s8mk"), vec![7u8; 256]));
    family.elements.push(IconElement::new(OSType(*b"icp4"), file.clone()));
    family.elements.push(IconElement::new(OSType(*b"icp4"), vec![1, 2, 3]));
    family.add_icon(&Image::new(PixelFormat::RGBA, 32, 32)).unwrap();

    assert_eq!(family.jp2_payload(IconType::RGBA32_16x16), Some(&file[..]));
    assert_eq!(family.jp2_payload(IconType::RGBA32_32x32), None);
    assert_eq!(family.jp2_payload(IconType::Mask8_16x16), None);
    assert_eq!(family.jp2_payload(IconType::RGB24_16x16), None);
    assert_eq!(family.jp2_payload(IconType::RGBA32_64x64), None);

    assert_eq!(
        family.get_icon_with_type(IconType::RGBA32_16x16).err(),
        Some(IcnsError::UnsupportedPayload)
    );
    let (header, pixels) = decode(family.jp2_payload(IconType::RGBA32_16x16).unwrap());
    let image = family.get_icon_with_jp2(IconType::RGBA32_16x16, header, pixels).unwrap();
    assert_eq!(image.pixel_format(), PixelFormat::RGB);
    assert_eq!(image.data(), &[128u8; 768][..]);

    // Where no decoder is taken, its report counts for nothing.
    let plain = family.get_icon_with_type(IconType::RGBA32_32x32).unwrap();
    let same = family.get_icon_with_jp2(IconType::RGBA32_32x32, None, Some(vec![1])).unwrap();
    assert_eq!(plain.data(), same.data());
    let mask = family.get_icon_with_jp2(IconType::Mask8_16x16, None, None).unwrap();
    assert_eq!(mask.data(), &[7u8; 256][..]);
    assert_eq!(
        family.get_icon_with_jp2(IconType::RGBA32_64x64, None, None).err(),
        Some(IcnsError::NotFound)
    );
    assert_eq!(
        family.get_icon_with_jp2(IconType::RGB24_16x16, None, None).err(),
        Some(IcnsError::NotFound)
    );
}

fn info(color_space: Jp2ColorSpace, has_alpha: bool, width: u32, height: u32) -> Jp2Info {
    Jp2Info { color_space, has_alpha, width, height }
}

#[test]
fn read_jp2_picks_the_format_by_color_space_and_alpha() {
    let cases = [
        (Jp2ColorSpace::Gray, false, PixelFormat::Gray, 1usize),
        (Jp2ColorSpace::Gray, true, PixelFormat::GrayAlpha, 2),
        (Jp2ColorSpace::Rgb, false, PixelFormat::RGB, 3),
        (Jp2ColorSpace::Rgb, true, PixelFormat::RGBA, 4),
    ];
    for &(color_space, has_alpha, format, bytes) in cases.iter() {
        let header = info(color_space, has_alpha, 3, 2);
        assert_eq!(header.pixel_format(), Ok(format));
        let pixels: Vec<u8> = (0..(6 * bytes) as u8).collect();
        let image = Image::read_jp2(Some(header), Some(pixels.clone()))
            .expect("a raster of the right length");
        assert_eq!(image.pixel_format(), format);
        assert_eq!((image.width(), image.height()), (3, 2));
        assert_eq!(image.data(), &pixels[..]);
        let mut short = pixels.clone();
        short.pop();
        assert_eq!(
            Image::read_jp2(Some(header), Some(short)).err(),
            Some(IcnsError::UnsupportedPayload)
        );
        assert_eq!(Image::read_jp2(Some(header), None).err(), Some(IcnsError::IoError));
    }
}

#[test]
fn read_jp2_refuses_other_color_spaces_whatever_the_raster() {
    for &color_space in [Jp2ColorSpace::Cmyk, Jp2ColorSpace::Unknown, Jp2ColorSpace::Icc].iter() {
        for &has_alpha in [false, true].iter() {
            let header = info(color_space, has_alpha, 1, 1);
            assert_eq!(header.pixel_format(), Err(IcnsError::UnsupportedPayload));
            assert_eq!(
                Image::read_jp2(Some(header), Some(vec![0u8; 4])).err(),
                Some(IcnsError::UnsupportedPayload)
            );
            assert_eq!(
                Image::read_jp2(Some(header), None).err(),
                Some(IcnsError::UnsupportedPayload)
            );
        }
    }
}
