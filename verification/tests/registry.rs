use icns::{Encoding, IconType, OSType};

const ALL_ICON_TYPES: [IconType; 21] = [
    IconType::Mono_32x32,
    IconType::MonoA_32x32,
    IconType::RGB24_16x16,
    IconType::Mask8_16x16,
    IconType::RGB24_32x32,
    IconType::Mask8_32x32,
    IconType::RGB24_48x48,
    IconType::Mask8_48x48,
    IconType::RGB24_128x128,
    IconType::Mask8_128x128,
    IconType::RGBA32_16x16,
    IconType::RGBA32_16x16_2x,
    IconType::RGBA32_32x32,
    IconType::RGBA32_32x32_2x,
    IconType::RGBA32_64x64,
    IconType::RGBA32_128x128,
    IconType::RGBA32_128x128_2x,
    IconType::RGBA32_256x256,
    IconType::RGBA32_256x256_2x,
    IconType::RGBA32_512x512,
    IconType::RGBA32_512x512_2x,
];

#[test]
fn icon_type_ostype_round_trip() {
    for icon_type in &ALL_ICON_TYPES {
        let ostype = icon_type.ostype();
        let from = IconType::from_ostype(ostype);
        assert_eq!(Some(*icon_type), from);
    }
}

#[test]
fn icon_type_mask_type() {
    for icon_type in &ALL_ICON_TYPES {
        match icon_type.encoding() {
            Encoding::Mask8 => {
                assert!(icon_type.is_mask());
                assert_eq!(icon_type.mask_type(), None);
            }
            Encoding::RLE24 => {
                assert!(!icon_type.is_mask());
                if let Some(mask_type) = icon_type.mask_type() {
                    assert_eq!(mask_type.encoding(), Encoding::Mask8);
                    assert_eq!(icon_type.pixel_width(), mask_type.pixel_width());
                    assert_eq!(icon_type.pixel_height(), mask_type.pixel_height());
                } else {
                    panic!("{:?} is missing a mask type", icon_type);
                }
            }
            Encoding::JP2PNG | Encoding::Mono | Encoding::MonoA => {
                assert!(!icon_type.is_mask());
                assert_eq!(icon_type.mask_type(), None);
            }
        }
    }
}

#[test]
fn unknown_ostype_has_no_icon_type() {
    assert_eq!(IconType::from_ostype(OSType(*b"quux")), None);
    assert_eq!(IconType::from_ostype(OSType(*b"TOC ")), None);
    assert_eq!(IconType::from_ostype(OSType(*b"is33")), None);
    assert_eq!(IconType::from_ostype(OSType([0, 0, 0, 0])), None);
}

#[test]
fn ostype_to_and_from_str() {
    let ostype = OSType::from_str("abcd").expect("failed to parse OSType");
    assert_eq!(ostype.to_string(), "abcd".to_string());
}

#[test]
fn ostype_to_and_from_str_non_ascii() {
    let ostype = OSType(*b"sp\xf6b");
    let string = ostype.to_string();
    assert_eq!(string, "sp\u{f6}b".to_string());
    assert_eq!(OSType::from_str(&string), Ok(ostype));
}

#[test]
fn ostype_from_str_failure() {
    assert_eq!(
        OSType::from_str("abc"),
        Err("OSType string must be 4 chars (was 3)".to_string())
    );
    assert_eq!(
        OSType::from_str("abcde"),
        Err("OSType string must be 4 chars (was 5)".to_string())
    );
    assert_eq!(
        OSType::from_str("ab\u{2603}d"),
        Err("OSType chars must have value of at most 0xFF \
             (found 0x2603)"
            .to_string())
    );
}

#[test]
fn ostype_from_str_reports_the_first_large_char_and_long_lengths() {
    assert_eq!(
        OSType::from_str("\u{100}b\u{2603}d"),
        Err("OSType chars must have value of at most 0xFF (found 0x100)".to_string())
    );
    assert_eq!(
        OSType::from_str(""),
        Err("OSType string must be 4 chars (was 0)".to_string())
    );
    assert_eq!(
        OSType::from_str("0123456789ab"),
        Err("OSType string must be 4 chars (was 12)".to_string())
    );
    assert_eq!(OSType::from_str("\u{0}\u{ff}\u{7f}\u{80}"), Ok(OSType([0, 255, 127, 128])));
}

#[test]
fn ostype_string_round_trip_for_every_icon_type() {
    for icon_type in &ALL_ICON_TYPES {
        let ostype = icon_type.ostype();
        assert_eq!(OSType::from_str(&ostype.to_string()), Ok(ostype));
    }
    assert_eq!(IconType::RGB24_128x128.ostype().to_string(), "it32");
    assert_eq!(IconType::MonoA_32x32.ostype().to_string(), "ICN#");
    assert_eq!(IconType::Mono_32x32.ostype().to_string(), "ICON");
}

#[test]
fn icon_type_table() {
    let table: [(&[u8; 4], IconType, u32, u32, Encoding, Option<IconType>); 21] = [
        (b"ICON", IconType::Mono_32x32, 32, 1, Encoding::Mono, None),
        (b"ICN#", IconType::MonoA_32x32, 32, 1, Encoding::MonoA, None),
        (b"is32", IconType::RGB24_16x16, 16, 1, Encoding::RLE24, Some(IconType::Mask8_16x16)),
        (b"s8mk", IconType::Mask8_16x16, 16, 1, Encoding::Mask8, None),
        (b"il32", IconType::RGB24_32x32, 32, 1, Encoding::RLE24, Some(IconType::Mask8_32x32)),
        (b"l8mk", IconType::Mask8_32x32, 32, 1, Encoding::Mask8, None),
        (b"ih32", IconType::RGB24_48x48, 48, 1, Encoding::RLE24, Some(IconType::Mask8_48x48)),
        (b"h8mk", IconType::Mask8_48x48, 48, 1, Encoding::Mask8, None),
        (b"it32", IconType::RGB24_128x128, 128, 1, Encoding::RLE24, Some(IconType::Mask8_128x128)),
        (b"t8mk", IconType::Mask8_128x128, 128, 1, Encoding::Mask8, None),
        (b"icp4", IconType::RGBA32_16x16, 16, 1, Encoding::JP2PNG, None),
        (b"icp5", IconType::RGBA32_32x32, 32, 1, Encoding::JP2PNG, None),
        (b"icp6", IconType::RGBA32_64x64, 64, 1, Encoding::JP2PNG, None),
        (b"ic07", IconType::RGBA32_128x128, 128, 1, Encoding::JP2PNG, None),
        (b"ic08", IconType::RGBA32_256x256, 256, 1, Encoding::JP2PNG, None),
        (b"ic09", IconType::RGBA32_512x512, 512, 1, Encoding::JP2PNG, None),
        (b"ic10", IconType::RGBA32_512x512_2x, 512, 2, Encoding::JP2PNG, None),
        (b"ic11", IconType::RGBA32_16x16_2x, 16, 2, Encoding::JP2PNG, None),
        (b"ic12", IconType::RGBA32_32x32_2x, 32, 2, Encoding::JP2PNG, None),
        (b"ic13", IconType::RGBA32_128x128_2x, 128, 2, Encoding::JP2PNG, None),
        (b"ic14", IconType::RGBA32_256x256_2x, 256, 2, Encoding::JP2PNG, None),
    ];
    for &(tag, icon_type, screen, density, encoding, mask) in table.iter() {
        assert_eq!(icon_type.ostype(), OSType(*tag));
        assert_eq!(IconType::from_ostype(OSType(*tag)), Some(icon_type));
        assert_eq!(icon_type.screen_width(), screen);
        assert_eq!(icon_type.screen_height(), screen);
        assert_eq!(icon_type.pixel_density(), density);
        assert_eq!(icon_type.pixel_width(), screen * density);
        assert_eq!(icon_type.pixel_height(), screen * density);
        assert_eq!(icon_type.encoding(), encoding);
        assert_eq!(icon_type.mask_type(), mask);
        assert_eq!(icon_type.is_mask(), encoding == Encoding::Mask8);
    }
}

#[test]
fn auto_variant_selection_table() {
    let cases: [(u32, u32, Option<IconType>, Option<IconType>); 10] = [
        (16, 16, Some(IconType::RGBA32_16x16), Some(IconType::RGB24_16x16)),
        (32, 32, Some(IconType::RGBA32_32x32), Some(IconType::RGB24_32x32)),
        (48, 48, Some(IconType::RGB24_48x48), Some(IconType::RGB24_48x48)),
        (64, 64, Some(IconType::RGBA32_64x64), Some(IconType::RGBA32_64x64)),
        (128, 128, Some(IconType::RGBA32_128x128), Some(IconType::RGB24_128x128)),
        (256, 256, Some(IconType::RGBA32_256x256), Some(IconType::RGBA32_256x256)),
        (512, 512, Some(IconType::RGBA32_512x512), Some(IconType::RGBA32_512x512)),
        (1024, 1024, Some(IconType::RGBA32_512x512_2x), Some(IconType::RGBA32_512x512_2x)),
        (13, 13, None, None),
        (16, 32, None, None),
    ];
    for &(width, height, with_alpha, without_alpha) in cases.iter() {
        assert_eq!(IconType::from_pixel_size(width, height, true), with_alpha);
        assert_eq!(IconType::from_pixel_size(width, height, false), without_alpha);
    }
}
