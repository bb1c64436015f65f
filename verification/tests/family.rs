use icns::{IcnsError, IconElement, IconFamily, IconType, Image, OSType, PixelFormat};

#[test]
fn icon_with_type() {
    let mut family = IconFamily::new();
    assert!(!family.has_icon_with_type(IconType::RGB24_16x16));
    let image = Image::new(PixelFormat::Gray, 16, 16);
    family.add_icon_with_type(&image, IconType::RGB24_16x16).unwrap();
    assert!(family.has_icon_with_type(IconType::RGB24_16x16));
    assert!(family.get_icon_with_type(IconType::RGB24_16x16).is_ok());
}

#[test]
fn write_empty_icon_family() {
    let family = IconFamily::new();
    assert!(family.is_empty());
    assert_eq!(0, family.elements.len());
    let mut output: Vec<u8> = vec![];
    family.write(&mut output).expect("write failed");
    assert_eq!(b"icns\0\0\0\x08", &output as &[u8]);
}

#[test]
fn read_icon_family_with_fake_elements() {
    let input: &[u8] = b"icns\0\0\0\x1fquux\0\0\0\x0efoobarbaz!\0\0\0\x09#";
    let family = IconFamily::read(input).expect("read failed");
    assert_eq!(2, family.elements.len());
    assert_eq!(OSType(*b"quux"), family.elements[0].ostype());
    assert_eq!(6, family.elements[0].data().len());
    assert_eq!(OSType(*b"baz!"), family.elements[1].ostype());
    assert_eq!(1, family.elements[1].data().len());
}

#[test]
fn write_icon_family_with_fake_elements() {
    let mut family = IconFamily::new();
    family.elements.push(IconElement::new(OSType(*b"quux"), b"foobar".to_vec()));
    family.elements.push(IconElement::new(OSType(*b"baz!"), b"#".to_vec()));
    let mut output: Vec<u8> = vec![];
    family.write(&mut output).expect("write failed");
    assert_eq!(
        b"icns\0\0\0\x1fquux\0\0\0\x0efoobarbaz!\0\0\0\x09#",
        &output as &[u8]
    );
}

#[test]
fn read_then_write_gives_the_same_bytes() {
    let input: &[u8] = b"icns\0\0\0\x1fquux\0\0\0\x0efoobarbaz!\0\0\0\x09#";
    let family = IconFamily::read(input).expect("read failed");
    assert_eq!(family.elements[0].data(), b"foobar");
    assert_eq!(family.elements[1].data(), b"#");
    assert_eq!(family.total_length(), 31);
    let mut output: Vec<u8> = vec![];
    family.write(&mut output).expect("write failed");
    assert_eq!(output.len(), 31);
    assert_eq!(&output[..], input);
}

#[test]
fn read_ignores_what_follows_the_declared_length() {
    let input: &[u8] = b"icns\0\0\0\x11quux\0\0\0\x09#trailing bytes";
    let family = IconFamily::read(input).expect("read failed");
    assert_eq!(family.elements.len(), 1);
    let mut output: Vec<u8> = vec![];
    family.write(&mut output).unwrap();
    assert_eq!(&output[..], &input[..17]);
}

#[test]
fn read_with_the_wrong_magic() {
    assert_eq!(IconFamily::read(b"ICNS\0\0\0\x08").err(), Some(IcnsError::InvalidMagic));
    assert_eq!(IconFamily::read(b"icnS\0\0\0\x08").err(), Some(IcnsError::InvalidMagic));
    assert_eq!(IconFamily::read(b"\x89PNG\r\n\x1a\n").err(), Some(IcnsError::InvalidMagic));
    assert_eq!(IconFamily::read(b"ICNS").err(), Some(IcnsError::InvalidMagic));
}

#[test]
fn read_of_a_short_input() {
    assert_eq!(IconFamily::read(b"").err(), Some(IcnsError::IoError));
    assert_eq!(IconFamily::read(b"icn").err(), Some(IcnsError::IoError));
    assert_eq!(IconFamily::read(b"icns\0\0\0").err(), Some(IcnsError::IoError));
    assert_eq!(
        IconFamily::read(b"icns\0\0\0\x1fquux\0\0\0\x0efoobarbaz!\0\0\0\x09").err(),
        Some(IcnsError::IoError)
    );
}

#[test]
fn read_with_a_wrong_length() {
    // The declared length is under eight.
    assert_eq!(IconFamily::read(b"icns\0\0\0\x07").err(), Some(IcnsError::InvalidLength));
    assert_eq!(IconFamily::read(b"icns\0\0\0\0").err(), Some(IcnsError::InvalidLength));
    // An element runs past the declared length.
    assert_eq!(
        IconFamily::read(b"icns\0\0\0\x10quux\0\0\0\x0efoobar").err(),
        Some(IcnsError::InvalidLength)
    );
    // The declared length ends inside an element's header.
    assert_eq!(
        IconFamily::read(b"icns\0\0\0\x0cquux\0\0\0\x08").err(),
        Some(IcnsError::InvalidLength)
    );
    // An element's own length is under eight.
    assert_eq!(
        IconFamily::read(b"icns\0\0\0\x10quux\0\0\0\x07").err(),
        Some(IcnsError::InvalidLength)
    );
    assert!(IconFamily::read(b"icns\0\0\0\x10quux\0\0\0\x08").is_ok());
}

#[test]
fn read_an_empty_family() {
    let family = IconFamily::read(b"icns\0\0\0\x08").unwrap();
    assert!(family.is_empty());
    assert_eq!(family.total_length(), 8);
    assert!(family.available_icons().is_empty());
}

#[test]
fn add_mask_image_under_the_mask_type() {
    let mut image = Image::new(PixelFormat::Alpha, 16, 16);
    image.data_mut()[2] = 127;
    let mut family = IconFamily::new();
    family.add_icon_with_type(&image, IconType::Mask8_16x16).unwrap();
    assert_eq!(family.elements.len(), 1);
    assert_eq!(family.elements[0].ostype(), OSType(*b"s8mk"));
    assert_eq!(family.elements[0].data()[2], 127);
    assert_eq!(family.elements[0].data().len(), 256);
}

#[test]
fn add_gray_image_under_an_rle_type() {
    let mut image = Image::new(PixelFormat::Gray, 16, 16);
    for (i, &value) in [44u8, 55, 66, 66, 66].iter().enumerate() {
        image.data_mut()[i] = value;
    }
    let mut family = IconFamily::new();
    family.add_icon_with_type(&image, IconType::RGB24_16x16).unwrap();
    assert_eq!(family.elements.len(), 2);
    assert_eq!(family.elements[0].ostype(), OSType(*b"is32"));
    assert_eq!(&family.elements[0].data()[..5], &[0x01u8, 0x2C, 0x37, 0x80, 0x42]);
    assert_eq!(family.elements[1].ostype(), OSType(*b"s8mk"));
    assert_eq!(family.elements[1].data(), &[255u8; 256][..]);
}

#[test]
fn add_icon_picks_the_type_by_size_and_alpha() {
    let mut family = IconFamily::new();
    family.add_icon(&Image::new(PixelFormat::RGBA, 64, 64)).unwrap();
    assert_eq!(family.elements.len(), 1);
    assert_eq!(family.elements[0].icon_type(), Some(IconType::RGBA32_64x64));

    let mut family = IconFamily::new();
    family.add_icon(&Image::new(PixelFormat::RGB, 48, 48)).unwrap();
    assert_eq!(family.elements.len(), 2);
    assert_eq!(family.elements[0].ostype(), OSType(*b"ih32"));
    assert_eq!(family.elements[1].ostype(), OSType(*b"h8mk"));

    let mut family = IconFamily::new();
    family.add_icon(&Image::new(PixelFormat::Gray, 1024, 1024)).unwrap();
    assert_eq!(family.elements.len(), 1);
    assert_eq!(family.elements[0].ostype(), OSType(*b"ic10"));

    let mut family = IconFamily::new();
    family.add_icon(&Image::new(PixelFormat::RGBA, 16, 16)).unwrap();
    family.add_icon(&Image::new(PixelFormat::RGB, 16, 16)).unwrap();
    family.add_icon(&Image::new(PixelFormat::Alpha, 128, 128)).unwrap();
    family.add_icon(&Image::new(PixelFormat::Gray, 128, 128)).unwrap();
    let tags: Vec<OSType> = family.elements.iter().map(|e| e.ostype()).collect();
    assert_eq!(
        tags,
        vec![
            OSType(*b"icp4"),
            OSType(*b"is32"),
            OSType(*b"s8mk"),
            OSType(*b"ic07"),
            OSType(*b"it32"),
            OSType(*b"t8mk"),
        ]
    );
}

#[test]
fn add_icon_without_a_matching_type() {
    let mut family = IconFamily::new();
    family.elements.push(IconElement::new(OSType(*b"quux"), b"foobar".to_vec()));
    for &(width, height) in [(13u32, 13u32), (16, 17), (0, 0), (2048, 2048)].iter() {
        let image = Image::new(PixelFormat::Gray, width, height);
        assert_eq!(family.add_icon(&image), Err(IcnsError::NoMatchingType));
    }
    assert_eq!(family.elements.len(), 1);
}

#[test]
fn add_icon_with_the_wrong_type_changes_nothing() {
    let mut family = IconFamily::new();
    let image = Image::new(PixelFormat::RGB, 16, 16);
    assert_eq!(
        family.add_icon_with_type(&image, IconType::RGB24_32x32),
        Err(IcnsError::DimensionMismatch)
    );
    assert!(family.is_empty());
}

#[test]
fn available_icons_lists_complete_icons_in_order() {
    let mut family = IconFamily::new();
    family.elements.push(IconElement::new(OSType(*b"TOC "), vec![]));
    family.elements.push(IconElement::new(OSType(*b"il32"), vec![]));
    family.elements.push(IconElement::new(OSType(*b"ic08"), vec![]));
    family.elements.push(IconElement::new(OSType(*b"is32"), vec![]));
    family.elements.push(IconElement::new(OSType(*b"s8mk"), vec![]));
    family.elements.push(IconElement::new(OSType(*b"h8mk"), vec![]));
    family.elements.push(IconElement::new(OSType(*b"ICN#"), vec![]));
    family.elements.push(IconElement::new(OSType(*b"is32"), vec![]));
    assert_eq!(
        family.available_icons(),
        vec![
            IconType::RGBA32_256x256,
            IconType::RGB24_16x16,
            IconType::MonoA_32x32,
            IconType::RGB24_16x16,
        ]
    );
    assert!(family.has_icon_with_type(IconType::RGB24_16x16));
    assert!(family.has_icon_with_type(IconType::RGBA32_256x256));
    assert!(family.has_icon_with_type(IconType::Mask8_16x16));
    assert!(family.has_icon_with_type(IconType::Mask8_48x48));
    assert!(!family.has_icon_with_type(IconType::RGB24_32x32));
    assert!(!family.has_icon_with_type(IconType::RGB24_48x48));
    assert!(!family.has_icon_with_type(IconType::RGBA32_16x16));
    family.elements.push(IconElement::new(OSType(*b"l8mk"), vec![]));
    assert!(family.has_icon_with_type(IconType::RGB24_32x32));
    assert_eq!(family.available_icons().len(), 5);
    assert_eq!(family.available_icons()[0], IconType::RGB24_32x32);
}

#[test]
fn get_icon_fuses_the_first_color_element_with_the_first_mask() {
    let rle: Vec<u8> = vec![
        0, 12, 255, 0, 250, 0, 128, 34, 255, 0, 248, 0, 1, 56, 99, 255, 0, 249, 0,
    ];
    let mut family = IconFamily::new();
    family.elements.push(IconElement::new(OSType(*b"s8mk"), vec![78u8; 256]));
    family.elements.push(IconElement::new(OSType(*b"is32"), rle));
    family.elements.push(IconElement::new(OSType(*b"is32"), vec![1, 2, 3]));
    family.elements.push(IconElement::new(OSType(*b"s8mk"), vec![1u8; 256]));
    let image = family.get_icon_with_type(IconType::RGB24_16x16).unwrap();
    assert_eq!(image.pixel_format(), PixelFormat::RGBA);
    assert_eq!(&image.data()[..8], &[12u8, 34, 56, 78, 0, 34, 99, 78]);
    let mask = family.get_icon_with_type(IconType::Mask8_16x16).unwrap();
    assert_eq!(mask.pixel_format(), PixelFormat::Alpha);
    assert_eq!(mask.data(), &[78u8; 256][..]);
}

#[test]
fn get_icon_that_is_not_there() {
    let mut family = IconFamily::new();
    assert_eq!(
        family.get_icon_with_type(IconType::RGBA32_16x16).err(),
        Some(IcnsError::NotFound)
    );
    family.elements.push(IconElement::new(OSType(*b"is32"), vec![1, 2, 3]));
    assert_eq!(
        family.get_icon_with_type(IconType::RGB24_16x16).err(),
        Some(IcnsError::NotFound)
    );
    family.elements.push(IconElement::new(OSType(*b"s8mk"), vec![0u8; 256]));
    assert_eq!(
        family.get_icon_with_type(IconType::RGB24_16x16).err(),
        Some(IcnsError::InvalidRLE)
    );
}

#[test]
fn family_round_trip_through_bytes() {
    let mut family = IconFamily::new();
    let mut small = Image::new(PixelFormat::RGBA, 16, 16);
    let mut large = Image::new(PixelFormat::RGB, 128, 128);
    for (i, byte) in small.data_mut().iter_mut().enumerate() {
        *byte = (i % 251) as u8;
    }
    for (i, byte) in large.data_mut().iter_mut().enumerate() {
        *byte = (i / 97 % 7) as u8;
    }
    family.add_icon(&small).unwrap();
    family.add_icon_with_type(&small, IconType::RGB24_16x16).unwrap();
    family.add_icon(&large).unwrap();
    let mut bytes: Vec<u8> = Vec::new();
    family.write(&mut bytes).unwrap();
    assert_eq!(bytes.len() as u32, family.total_length());
    assert_eq!(&bytes[..4], b"icns");
    assert_eq!(&bytes[4..8], &family.total_length().to_be_bytes());

    let back = IconFamily::read(&bytes).unwrap();
    assert_eq!(back.elements.len(), 5);
    for (a, b) in family.elements.iter().zip(back.elements.iter()) {
        assert_eq!(a.ostype(), b.ostype());
        assert_eq!(a.data(), b.data());
    }
    let mut again: Vec<u8> = Vec::new();
    back.write(&mut again).unwrap();
    assert_eq!(again, bytes);

    assert_eq!(
        back.available_icons(),
        vec![IconType::RGBA32_16x16, IconType::RGB24_16x16, IconType::RGB24_128x128]
    );
    assert_eq!(back.get_icon_with_type(IconType::RGBA32_16x16).unwrap().data(), small.data());
    assert_eq!(back.get_icon_with_type(IconType::RGB24_16x16).unwrap().data(), small.data());
    let fused = back.get_icon_with_type(IconType::RGB24_128x128).unwrap();
    assert_eq!(fused.data(), large.convert_to(PixelFormat::RGBA).data());
}

#[test]
fn write_appends_to_what_is_there() {
    let mut family = IconFamily::new();
    family.elements.push(IconElement::new(OSType(*b"baz!"), b"#".to_vec()));
    let mut output: Vec<u8> = b"before".to_vec();
    family.write(&mut output).unwrap();
    assert_eq!(&output[..], b"beforeicns\0\0\0\x11baz!\0\0\0\x09#");
}

fn patterned(format: PixelFormat, side: u32) -> Image {
    let mut image = Image::new(format, side, side);
    let mut state: u32 = 0x1234_5678 ^ side;
    for byte in image.data_mut().iter_mut() {
        state = state.wrapping_mul(1664525).wrapping_add(1013904223);
        *byte = if (state >> 24) % 3 == 0 { (state >> 16) as u8 } else { 17 };
    }
    image
}

#[test]
fn every_icon_type_round_trips_through_a_file() {
    let types = [
        IconType::RGB24_16x16,
        IconType::RGB24_32x32,
        IconType::RGB24_48x48,
        IconType::RGB24_128x128,
        IconType::RGBA32_16x16,
        IconType::RGBA32_32x32,
        IconType::RGBA32_64x64,
        IconType::RGBA32_128x128,
        IconType::RGBA32_256x256,
        IconType::RGBA32_16x16_2x,
        IconType::RGBA32_32x32_2x,
        IconType::RGBA32_128x128_2x,
    ];
    for &icon_type in types.iter() {
        let image = patterned(PixelFormat::RGBA, icon_type.pixel_width());
        let mut family = IconFamily::new();
        family.add_icon_with_type(&image, icon_type).unwrap();
        assert_eq!(family.elements.len(), if icon_type.mask_type().is_some() { 2 } else { 1 });
        let mut bytes: Vec<u8> = Vec::new();
        family.write(&mut bytes).unwrap();
        let back = IconFamily::read(&bytes).unwrap();
        assert_eq!(back.available_icons(), vec![icon_type]);
        assert!(back.has_icon_with_type(icon_type));
        let decoded = back.get_icon_with_type(icon_type).unwrap();
        assert_eq!(decoded.pixel_format(), PixelFormat::RGBA);
        assert_eq!((decoded.width(), decoded.height()), (image.width(), image.height()));
        assert!(decoded.data() == image.data());
    }
}

#[test]
fn one_bit_icon_types_round_trip_through_a_file() {
    let image = patterned(PixelFormat::GrayAlpha, 32);
    for &icon_type in [IconType::Mono_32x32, IconType::MonoA_32x32].iter() {
        let mut family = IconFamily::new();
        family.add_icon_with_type(&image, icon_type).unwrap();
        let mut bytes: Vec<u8> = Vec::new();
        family.write(&mut bytes).unwrap();
        assert_eq!(bytes.len(), 8 + 8 + if icon_type == IconType::Mono_32x32 { 128 } else { 256 });
        let decoded = IconFamily::read(&bytes).unwrap().get_icon_with_type(icon_type).unwrap();
        let masked = icon_type == IconType::MonoA_32x32;
        for i in 0..1024usize {
            let gray = if image.data()[2 * i] < 128 { 0 } else { 255 };
            let alpha = if image.data()[2 * i + 1] >= 128 { 255 } else { 0 };
            if masked {
                assert_eq!(&decoded.data()[2 * i..2 * i + 2], &[gray, alpha]);
            } else {
                assert_eq!(decoded.data()[i], gray);
            }
        }
    }
}

#[test]
fn image_clone_is_equal() {
    let image = patterned(PixelFormat::RGB, 16);
    let copy = image.clone();
    assert_eq!(copy.pixel_format(), image.pixel_format());
    assert_eq!((copy.width(), copy.height()), (16, 16));
    assert_eq!(copy.data(), image.data());
}
