//! Tags and the icon types that carry them.
//!
//! An [`OSType`] is any four bytes. An [`IconType`] is one of the tags that
//! this crate knows how to decode, together with the size of its raster, its
//! density, its [`Encoding`] and the mask type that completes it, if it
//! needs one.

use crate::text::{push_char, push_decimal, push_hex, spec_decimal, spec_hex};
use vstd::prelude::*;
use vstd::std_specs::cmp::PartialEqSpec;
use vstd::string::{StrSliceExecFns, StringExecFns};

verus! {

/// A four-byte identifier that says what an icon element holds.
///
/// Its view is the sequence of its four bytes.
#[derive(Clone, Copy, Debug, Eq, Hash, Ord, PartialOrd)]
pub struct OSType(pub [u8; 4]);

impl View for OSType {
    type V = Seq<u8>;

    open spec fn view(&self) -> Seq<u8> {
        self.0@
    }
}

impl PartialEq for OSType {
    fn eq(&self, other: &OSType) -> (r: bool) {
        self.0[0] == other.0[0] && self.0[1] == other.0[1] && self.0[2] == other.0[2]
            && self.0[3] == other.0[3]
    }
}

impl vstd::std_specs::cmp::PartialEqSpecImpl for OSType {
    open spec fn obeys_eq_spec() -> bool {
        true
    }

    open spec fn eq_spec(&self, other: &OSType) -> bool {
        self.0[0] == other.0[0] && self.0[1] == other.0[1] && self.0[2] == other.0[2]
            && self.0[3] == other.0[3]
    }
}

/// What is wrong with a string that has a character too large for a byte.
pub open spec fn spec_value_message(c: char) -> Seq<char> {
    "OSType chars must have value of at most 0x"@ + spec_hex(255) + " (found 0x"@ + spec_hex(
        c as u32 as nat,
    ) + ")"@
}

/// What is wrong with a string that does not have four characters.
pub open spec fn spec_length_message(len: nat) -> Seq<char> {
    "OSType string must be 4 chars (was "@ + spec_decimal(len) + ")"@
}

/// The four bytes that a string spells, or what is wrong with it.
///
/// A tag is spelled by exactly four characters, each with a scalar value of
/// at most 255, which is its byte. Of several characters that are too large
/// the first is reported.
pub open spec fn spec_parse_ostype(chars: Seq<char>) -> Result<Seq<u8>, Seq<char>> {
    if chars.len() != 4 {
        Err(spec_length_message(chars.len()))
    } else if chars[0] as u32 > 255 {
        Err(spec_value_message(chars[0]))
    } else if chars[1] as u32 > 255 {
        Err(spec_value_message(chars[1]))
    } else if chars[2] as u32 > 255 {
        Err(spec_value_message(chars[2]))
    } else if chars[3] as u32 > 255 {
        Err(spec_value_message(chars[3]))
    } else {
        Ok(
            seq![
                chars[0] as u32 as u8,
                chars[1] as u32 as u8,
                chars[2] as u32 as u8,
                chars[3] as u32 as u8,
            ],
        )
    }
}

/// The string that spells four bytes: for each byte the character with that
/// scalar value.
pub open spec fn spec_ostype_string(bytes: Seq<u8>) -> Seq<char> {
    seq![bytes[0] as char, bytes[1] as char, bytes[2] as char, bytes[3] as char]
}

/// The string of a tag spells that tag.
pub proof fn lemma_parse_ostype_string(bytes: Seq<u8>)
    requires
        bytes.len() == 4,
    ensures
        spec_parse_ostype(spec_ostype_string(bytes)) == Ok::<Seq<u8>, Seq<char>>(bytes),
{
    let chars = spec_ostype_string(bytes);
    assert(chars[0] as u32 as u8 == bytes[0]);
    assert(chars[1] as u32 as u8 == bytes[1]);
    assert(chars[2] as u32 as u8 == bytes[2]);
    assert(chars[3] as u32 as u8 == bytes[3]);
    assert(seq![
        chars[0] as u32 as u8,
        chars[1] as u32 as u8,
        chars[2] as u32 as u8,
        chars[3] as u32 as u8,
    ] =~= bytes);
}

/// The error for a character whose value is too large for a byte.
fn value_message(c: char) -> (msg: String)
    ensures
        msg@ == spec_value_message(c),
{
    let mut msg = String::new();
    msg.append("OSType chars must have value of at most 0x");
    push_hex(&mut msg, 255);
    msg.append(" (found 0x");
    push_hex(&mut msg, c as u32);
    msg.append(")");
    assert(msg@ =~= spec_value_message(c));
    msg
}

/// The error for a string that does not have four characters.
fn length_message(len: usize) -> (msg: String)
    ensures
        msg@ == spec_length_message(len as nat),
{
    let mut msg = String::new();
    msg.append("OSType string must be 4 chars (was ");
    push_decimal(&mut msg, len);
    msg.append(")");
    assert(msg@ =~= spec_length_message(len as nat));
    msg
}

impl OSType {
    /// The string that spells the tag: for each byte the character with that
    /// scalar value.
    pub fn to_string(&self) -> (s: String)
        ensures
            s@ == spec_ostype_string(self@),
    {
        let mut s = String::new();
        push_char(&mut s, self.0[0] as char);
        push_char(&mut s, self.0[1] as char);
        push_char(&mut s, self.0[2] as char);
        push_char(&mut s, self.0[3] as char);
        assert(s@ =~= spec_ostype_string(self@));
        s
    }

    /// Reads a tag from a string of exactly four characters, each with a
    /// scalar value of at most 255.
    pub fn from_str(input: &str) -> (r: Result<OSType, String>)
        ensures
            match r {
                Ok(t) => spec_parse_ostype(input@) == Ok::<Seq<u8>, Seq<char>>(t@),
                Err(msg) => spec_parse_ostype(input@) == Err::<Seq<u8>, Seq<char>>(msg@),
            },
    {
        let len = input.unicode_len();
        if len != 4 {
            return Err(length_message(len));
        }
        let c0 = input.get_char(0);
        if c0 as u32 > 255 {
            return Err(value_message(c0));
        }
        let c1 = input.get_char(1);
        if c1 as u32 > 255 {
            return Err(value_message(c1));
        }
        let c2 = input.get_char(2);
        if c2 as u32 > 255 {
            return Err(value_message(c2));
        }
        let c3 = input.get_char(3);
        if c3 as u32 > 255 {
            return Err(value_message(c3));
        }
        let t = OSType([c0 as u32 as u8, c1 as u32 as u8, c2 as u32 as u8, c3 as u32 as u8]);
        assert(t@ =~= seq![
            input@[0] as u32 as u8,
            input@[1] as u32 as u8,
            input@[2] as u32 as u8,
            input@[3] as u32 as u8,
        ]);
        Ok(t)
    }

    /// Two tags are equal exactly when their four bytes are, and that is
    /// what `==` computes.
    pub proof fn lemma_eq_is_bytewise(self, other: OSType)
        ensures
            self.eq_spec(&other) <==> self@ == other@,
            self@ == other@ <==> self == other,
            self@.len() == 4,
    {
        if self.eq_spec(&other) {
            assert(self@ =~= other@);
        }
        if self@ == other@ {
            assert(self.0@[0] == other.0@[0]);
            assert(self.0@[1] == other.0@[1]);
            assert(self.0@[2] == other.0@[2]);
            assert(self.0@[3] == other.0@[3]);
            assert(self.0 =~= other.0);
        }
    }
}

/// How the raster of an icon type is laid out in its element's payload.
#[derive(Clone, Copy, Debug, Eq, Hash, PartialEq, Structural)]
pub enum Encoding {
    /// One bit per pixel, most significant bit first; a set bit is ink.
    Mono,
    /// A `Mono` bitmap followed by a one-bit alpha bitmap of the same size.
    MonoA,
    /// One alpha byte per pixel.
    Mask8,
    /// Three run-length coded color planes: red, then green, then blue.
    RLE24,
    /// A whole PNG file or a whole JPEG 2000 file.
    JP2PNG,
}

/// The icon element types that can be decoded as images or masks.
#[allow(non_camel_case_types)]
#[derive(Clone, Copy, Debug, Eq, Hash, PartialEq, Structural)]
pub enum IconType {
    /// 32x32 1-bit icon.
    Mono_32x32,
    /// 32x32 1-bit icon followed by its 1-bit mask.
    MonoA_32x32,
    /// 16x16 24-bit icon (without alpha).
    RGB24_16x16,
    /// 16x16 8-bit alpha mask.
    Mask8_16x16,
    /// 32x32 24-bit icon (without alpha).
    RGB24_32x32,
    /// 32x32 8-bit alpha mask.
    Mask8_32x32,
    /// 48x48 24-bit icon (without alpha).
    RGB24_48x48,
    /// 48x48 8-bit alpha mask.
    Mask8_48x48,
    /// 128x128 24-bit icon (without alpha).
    RGB24_128x128,
    /// 128x128 8-bit alpha mask.
    Mask8_128x128,
    /// 16x16 32-bit icon.
    RGBA32_16x16,
    /// 16x16 32-bit icon at double density (32 by 32 pixels).
    RGBA32_16x16_2x,
    /// 32x32 32-bit icon.
    RGBA32_32x32,
    /// 32x32 32-bit icon at double density (64 by 64 pixels).
    RGBA32_32x32_2x,
    /// 64x64 32-bit icon.
    RGBA32_64x64,
    /// 128x128 32-bit icon.
    RGBA32_128x128,
    /// 128x128 32-bit icon at double density (256 by 256 pixels).
    RGBA32_128x128_2x,
    /// 256x256 32-bit icon.
    RGBA32_256x256,
    /// 256x256 32-bit icon at double density (512 by 512 pixels).
    RGBA32_256x256_2x,
    /// 512x512 32-bit icon.
    RGBA32_512x512,
    /// 512x512 32-bit icon at double density (1024 by 1024 pixels).
    RGBA32_512x512_2x,
}

/// The tag that four characters spell: for each character the byte of its
/// scalar value.
pub open spec fn tag(a: char, b: char, c: char, d: char) -> Seq<u8> {
    seq![a as u8, b as u8, c as u8, d as u8]
}

/// The tag that four characters spell.
fn tag_of(a: char, b: char, c: char, d: char) -> (t: OSType)
    requires
        a as u32 <= 255,
        b as u32 <= 255,
        c as u32 <= 255,
        d as u32 <= 255,
    ensures
        t@ == tag(a, b, c, d),
{
    let t = OSType([a as u8, b as u8, c as u8, d as u8]);
    assert(t@ =~= tag(a, b, c, d));
    t
}

impl IconType {
    /// The tag of each icon type.
    pub open spec fn spec_ostype(self) -> Seq<u8> {
        match self {
            IconType::Mono_32x32 => tag('I', 'C', 'O', 'N'),
            IconType::MonoA_32x32 => tag('I', 'C', 'N', '#'),
            IconType::RGB24_16x16 => tag('i', 's', '3', '2'),
            IconType::Mask8_16x16 => tag('s', '8', 'm', 'k'),
            IconType::RGB24_32x32 => tag('i', 'l', '3', '2'),
            IconType::Mask8_32x32 => tag('l', '8', 'm', 'k'),
            IconType::RGB24_48x48 => tag('i', 'h', '3', '2'),
            IconType::Mask8_48x48 => tag('h', '8', 'm', 'k'),
            IconType::RGB24_128x128 => tag('i', 't', '3', '2'),
            IconType::Mask8_128x128 => tag('t', '8', 'm', 'k'),
            IconType::RGBA32_16x16 => tag('i', 'c', 'p', '4'),
            IconType::RGBA32_16x16_2x => tag('i', 'c', '1', '1'),
            IconType::RGBA32_32x32 => tag('i', 'c', 'p', '5'),
            IconType::RGBA32_32x32_2x => tag('i', 'c', '1', '2'),
            IconType::RGBA32_64x64 => tag('i', 'c', 'p', '6'),
            IconType::RGBA32_128x128 => tag('i', 'c', '0', '7'),
            IconType::RGBA32_128x128_2x => tag('i', 'c', '1', '3'),
            IconType::RGBA32_256x256 => tag('i', 'c', '0', '8'),
            IconType::RGBA32_256x256_2x => tag('i', 'c', '1', '4'),
            IconType::RGBA32_512x512 => tag('i', 'c', '0', '9'),
            IconType::RGBA32_512x512_2x => tag('i', 'c', '1', '0'),
        }
    }

    /// The icon type that carries a tag, if one does.
    pub open spec fn spec_from_ostype(t: Seq<u8>) -> Option<IconType> {
        if exists|v: IconType| v.spec_ostype() == t {
            Some(choose|v: IconType| v.spec_ostype() == t)
        } else {
            None
        }
    }

    /// The encoding of each icon type.
    pub open spec fn spec_encoding(self) -> Encoding {
        match self {
            IconType::Mono_32x32 => Encoding::Mono,
            IconType::MonoA_32x32 => Encoding::MonoA,
            IconType::RGB24_16x16
            | IconType::RGB24_32x32
            | IconType::RGB24_48x48
            | IconType::RGB24_128x128 => Encoding::RLE24,
            IconType::Mask8_16x16
            | IconType::Mask8_32x32
            | IconType::Mask8_48x48
            | IconType::Mask8_128x128 => Encoding::Mask8,
            _ => Encoding::JP2PNG,
        }
    }

    /// The mask type that completes each color-only icon type.
    pub open spec fn spec_mask_type(self) -> Option<IconType> {
        match self {
            IconType::RGB24_16x16 => Some(IconType::Mask8_16x16),
            IconType::RGB24_32x32 => Some(IconType::Mask8_32x32),
            IconType::RGB24_48x48 => Some(IconType::Mask8_48x48),
            IconType::RGB24_128x128 => Some(IconType::Mask8_128x128),
            _ => None,
        }
    }

    /// Whether an icon type only carries the alpha of another.
    pub open spec fn spec_is_mask(self) -> bool {
        self.spec_encoding() == Encoding::Mask8
    }

    /// Pixels per screen point, along each axis.
    pub open spec fn spec_pixel_density(self) -> nat {
        match self {
            IconType::RGBA32_16x16_2x
            | IconType::RGBA32_32x32_2x
            | IconType::RGBA32_128x128_2x
            | IconType::RGBA32_256x256_2x
            | IconType::RGBA32_512x512_2x => 2,
            _ => 1,
        }
    }

    /// The width in screen points.
    pub open spec fn spec_screen_width(self) -> nat {
        match self {
            IconType::RGB24_16x16
            | IconType::Mask8_16x16
            | IconType::RGBA32_16x16
            | IconType::RGBA32_16x16_2x => 16,
            IconType::Mono_32x32
            | IconType::MonoA_32x32
            | IconType::RGB24_32x32
            | IconType::Mask8_32x32
            | IconType::RGBA32_32x32
            | IconType::RGBA32_32x32_2x => 32,
            IconType::RGB24_48x48 | IconType::Mask8_48x48 => 48,
            IconType::RGBA32_64x64 => 64,
            IconType::RGB24_128x128
            | IconType::Mask8_128x128
            | IconType::RGBA32_128x128
            | IconType::RGBA32_128x128_2x => 128,
            IconType::RGBA32_256x256 | IconType::RGBA32_256x256_2x => 256,
            IconType::RGBA32_512x512 | IconType::RGBA32_512x512_2x => 512,
        }
    }

    /// The height in screen points: every icon type is square.
    pub open spec fn spec_screen_height(self) -> nat {
        self.spec_screen_width()
    }

    /// The width of the raster: screen width times density.
    pub open spec fn spec_pixel_width(self) -> nat {
        self.spec_screen_width() * self.spec_pixel_density()
    }

    /// The height of the raster: screen height times density.
    pub open spec fn spec_pixel_height(self) -> nat {
        self.spec_screen_height() * self.spec_pixel_density()
    }

    /// The number of pixels in the raster.
    pub open spec fn spec_num_pixels(self) -> nat {
        self.spec_pixel_width() * self.spec_pixel_height()
    }

    /// The icon type chosen for an image of the given size when the caller
    /// names none. Where a size has both a 32-bit type and a 24-bit type with
    /// a mask, an image with an alpha channel gets the first and one without
    /// gets the second.
    pub open spec fn spec_from_pixel_size(width: u32, height: u32, has_alpha: bool) -> Option<
        IconType,
    > {
        if width == 16 && height == 16 {
            Some(if has_alpha { IconType::RGBA32_16x16 } else { IconType::RGB24_16x16 })
        } else if width == 32 && height == 32 {
            Some(if has_alpha { IconType::RGBA32_32x32 } else { IconType::RGB24_32x32 })
        } else if width == 48 && height == 48 {
            Some(IconType::RGB24_48x48)
        } else if width == 64 && height == 64 {
            Some(IconType::RGBA32_64x64)
        } else if width == 128 && height == 128 {
            Some(if has_alpha { IconType::RGBA32_128x128 } else { IconType::RGB24_128x128 })
        } else if width == 256 && height == 256 {
            Some(IconType::RGBA32_256x256)
        } else if width == 512 && height == 512 {
            Some(IconType::RGBA32_512x512)
        } else if width == 1024 && height == 1024 {
            Some(IconType::RGBA32_512x512_2x)
        } else {
            None
        }
    }

    /// Picks the icon type for an image of the given pixel size, by the table
    /// of [`IconType::spec_from_pixel_size`]; `None` where no type has that
    /// size.
    pub fn from_pixel_size(width: u32, height: u32, has_alpha: bool) -> (r: Option<IconType>)
        ensures
            r == IconType::spec_from_pixel_size(width, height, has_alpha),
            r matches Some(t) ==> t.spec_pixel_width() == width && t.spec_pixel_height()
                == height && !t.spec_is_mask(),
    {
        if width != height {
            None
        } else if width == 16 {
            Some(if has_alpha { IconType::RGBA32_16x16 } else { IconType::RGB24_16x16 })
        } else if width == 32 {
            Some(if has_alpha { IconType::RGBA32_32x32 } else { IconType::RGB24_32x32 })
        } else if width == 48 {
            Some(IconType::RGB24_48x48)
        } else if width == 64 {
            Some(IconType::RGBA32_64x64)
        } else if width == 128 {
            Some(if has_alpha { IconType::RGBA32_128x128 } else { IconType::RGB24_128x128 })
        } else if width == 256 {
            Some(IconType::RGBA32_256x256)
        } else if width == 512 {
            Some(IconType::RGBA32_512x512)
        } else if width == 1024 {
            Some(IconType::RGBA32_512x512_2x)
        } else {
            None
        }
    }

    /// Returns true if this icon type is a mask for some other icon type.
    pub fn is_mask(self) -> (r: bool)
        ensures
            r == self.spec_is_mask(),
    {
        match self {
            IconType::Mask8_16x16
            | IconType::Mask8_32x32
            | IconType::Mask8_48x48
            | IconType::Mask8_128x128 => true,
            _ => false,
        }
    }

    /// If this icon type has an associated mask type, returns that mask type;
    /// if this is a mask icon type, or a non-mask icon type that has no
    /// associated mask type, returns `None`.
    pub fn mask_type(self) -> (r: Option<IconType>)
        ensures
            r == self.spec_mask_type(),
    {
        match self {
            IconType::RGB24_16x16 => Some(IconType::Mask8_16x16),
            IconType::RGB24_32x32 => Some(IconType::Mask8_32x32),
            IconType::RGB24_48x48 => Some(IconType::Mask8_48x48),
            IconType::RGB24_128x128 => Some(IconType::Mask8_128x128),
            _ => None,
        }
    }

    /// Returns the pixel data width of this icon type.  Normally this is the
    /// same as the screen width, but for 2x "retina" density icons, this will
    /// be twice that value.
    pub fn pixel_width(self) -> (r: u32)
        ensures
            r == self.spec_pixel_width(),
            0 < r <= 1024,
    {
        self.screen_width() * self.pixel_density()
    }

    /// Returns the pixel data height of this icon type.  Normally this is the
    /// same as the screen height, but for 2x "retina" density icons, this will
    /// be twice that value.
    pub fn pixel_height(self) -> (r: u32)
        ensures
            r == self.spec_pixel_height(),
            0 < r <= 1024,
    {
        self.screen_height() * self.pixel_density()
    }

    /// Returns the pixel density for this icon type -- that is, 2 for 2x
    /// "retina" density icons, or 1 for other icon types.
    pub fn pixel_density(self) -> (r: u32)
        ensures
            r == self.spec_pixel_density(),
    {
        match self {
            IconType::RGBA32_16x16_2x
            | IconType::RGBA32_32x32_2x
            | IconType::RGBA32_128x128_2x
            | IconType::RGBA32_256x256_2x
            | IconType::RGBA32_512x512_2x => 2,
            _ => 1,
        }
    }

    /// Returns the screen width of this icon type.  Normally this is the same
    /// as the pixel width, but for 2x "retina" density icons, this will be
    /// half that value.
    pub fn screen_width(self) -> (r: u32)
        ensures
            r == self.spec_screen_width(),
    {
        match self {
            IconType::Mono_32x32 => 32,
            IconType::MonoA_32x32 => 32,
            IconType::RGB24_16x16 => 16,
            IconType::Mask8_16x16 => 16,
            IconType::RGB24_32x32 => 32,
            IconType::Mask8_32x32 => 32,
            IconType::RGB24_48x48 => 48,
            IconType::Mask8_48x48 => 48,
            IconType::RGB24_128x128 => 128,
            IconType::Mask8_128x128 => 128,
            IconType::RGBA32_16x16 => 16,
            IconType::RGBA32_16x16_2x => 16,
            IconType::RGBA32_32x32 => 32,
            IconType::RGBA32_32x32_2x => 32,
            IconType::RGBA32_64x64 => 64,
            IconType::RGBA32_128x128 => 128,
            IconType::RGBA32_128x128_2x => 128,
            IconType::RGBA32_256x256 => 256,
            IconType::RGBA32_256x256_2x => 256,
            IconType::RGBA32_512x512 => 512,
            IconType::RGBA32_512x512_2x => 512,
        }
    }

    /// Returns the screen height of this icon type.  Normally this is the same
    /// as the pixel height, but for 2x "retina" density icons, this will be
    /// half that value.
    pub fn screen_height(self) -> (r: u32)
        ensures
            r == self.spec_screen_height(),
    {
        self.screen_width()
    }

    /// Returns the encoding used within an ICNS file for this icon type.
    pub fn encoding(self) -> (r: Encoding)
        ensures
            r == self.spec_encoding(),
    {
        match self {
            IconType::Mono_32x32 => Encoding::Mono,
            IconType::MonoA_32x32 => Encoding::MonoA,
            IconType::RGB24_16x16
            | IconType::RGB24_32x32
            | IconType::RGB24_48x48
            | IconType::RGB24_128x128 => Encoding::RLE24,
            IconType::Mask8_16x16
            | IconType::Mask8_32x32
            | IconType::Mask8_48x48
            | IconType::Mask8_128x128 => Encoding::Mask8,
            IconType::RGBA32_16x16
            | IconType::RGBA32_16x16_2x
            | IconType::RGBA32_32x32
            | IconType::RGBA32_32x32_2x
            | IconType::RGBA32_64x64
            | IconType::RGBA32_128x128
            | IconType::RGBA32_128x128_2x
            | IconType::RGBA32_256x256
            | IconType::RGBA32_256x256_2x
            | IconType::RGBA32_512x512
            | IconType::RGBA32_512x512_2x => Encoding::JP2PNG,
        }
    }

    /// Every icon type is found again from its own tag.
    pub proof fn lemma_ostype_round_trip(self)
        ensures
            IconType::spec_from_ostype(self.spec_ostype()) == Some(self),
    {
        IconType::lemma_tags_differ();
    }

    /// A tag that maps to an icon type is that type's own, and a tag maps to
    /// none exactly when no icon type carries it.
    pub proof fn lemma_from_ostype_sound(t: Seq<u8>)
        ensures
            IconType::spec_from_ostype(t) matches Some(v) ==> v.spec_ostype() == t,
            IconType::spec_from_ostype(t) is None <==> forall|v: IconType| v.spec_ostype() != t,
    {
    }

    /// No two icon types share a tag.
    pub proof fn lemma_tags_differ()
        ensures
            forall|a: IconType, b: IconType| a.spec_ostype() == b.spec_ostype() ==> a == b,
    {
        assert forall|a: IconType, b: IconType| a.spec_ostype() == b.spec_ostype() implies a
            == b by {
            let s = a.spec_ostype();
            let t = b.spec_ostype();
            assert(s[0] == t[0] && s[1] == t[1] && s[2] == t[2] && s[3] == t[3]);
        }
    }

    /// A color type and its mask have the same raster size, the mask is a
    /// mask, and only run-length coded types have one.
    pub proof fn lemma_mask_pairing(self)
        ensures
            self.spec_mask_type() is Some <==> self.spec_encoding() == Encoding::RLE24,
            self.spec_mask_type() matches Some(m) ==> m.spec_is_mask() && m.spec_pixel_width()
                == self.spec_pixel_width() && m.spec_pixel_height() == self.spec_pixel_height()
                && m.spec_mask_type() is None,
            self.spec_pixel_width() == self.spec_pixel_height(),
            16 <= self.spec_pixel_width() <= 1024,
            self.spec_pixel_density() == 1 || self.spec_pixel_density() == 2,
    {
    }

    /// Whether the tag is the tag of this icon type.
    fn has_ostype(self, ostype: OSType) -> (r: bool)
        ensures
            r == (self.spec_ostype() == ostype@),
    {
        let own = self.ostype();
        proof {
            own.lemma_eq_is_bytewise(ostype);
        }
        own == ostype
    }

    /// Get the icon type associated with the given OSType, if any.
    pub fn from_ostype(ostype: OSType) -> (r: Option<IconType>)
        ensures
            r == IconType::spec_from_ostype(ostype@),
    {
        proof {
            IconType::lemma_tags_differ();
        }
        if IconType::Mono_32x32.has_ostype(ostype) {
            Some(IconType::Mono_32x32)
        } else if IconType::MonoA_32x32.has_ostype(ostype) {
            Some(IconType::MonoA_32x32)
        } else if IconType::RGB24_16x16.has_ostype(ostype) {
            Some(IconType::RGB24_16x16)
        } else if IconType::Mask8_16x16.has_ostype(ostype) {
            Some(IconType::Mask8_16x16)
        } else if IconType::RGB24_32x32.has_ostype(ostype) {
            Some(IconType::RGB24_32x32)
        } else if IconType::Mask8_32x32.has_ostype(ostype) {
            Some(IconType::Mask8_32x32)
        } else if IconType::RGB24_48x48.has_ostype(ostype) {
            Some(IconType::RGB24_48x48)
        } else if IconType::Mask8_48x48.has_ostype(ostype) {
            Some(IconType::Mask8_48x48)
        } else if IconType::RGB24_128x128.has_ostype(ostype) {
            Some(IconType::RGB24_128x128)
        } else if IconType::Mask8_128x128.has_ostype(ostype) {
            Some(IconType::Mask8_128x128)
        } else if IconType::RGBA32_16x16.has_ostype(ostype) {
            Some(IconType::RGBA32_16x16)
        } else if IconType::RGBA32_16x16_2x.has_ostype(ostype) {
            Some(IconType::RGBA32_16x16_2x)
        } else if IconType::RGBA32_32x32.has_ostype(ostype) {
            Some(IconType::RGBA32_32x32)
        } else if IconType::RGBA32_32x32_2x.has_ostype(ostype) {
            Some(IconType::RGBA32_32x32_2x)
        } else if IconType::RGBA32_64x64.has_ostype(ostype) {
            Some(IconType::RGBA32_64x64)
        } else if IconType::RGBA32_128x128.has_ostype(ostype) {
            Some(IconType::RGBA32_128x128)
        } else if IconType::RGBA32_128x128_2x.has_ostype(ostype) {
            Some(IconType::RGBA32_128x128_2x)
        } else if IconType::RGBA32_256x256.has_ostype(ostype) {
            Some(IconType::RGBA32_256x256)
        } else if IconType::RGBA32_256x256_2x.has_ostype(ostype) {
            Some(IconType::RGBA32_256x256_2x)
        } else if IconType::RGBA32_512x512.has_ostype(ostype) {
            Some(IconType::RGBA32_512x512)
        } else if IconType::RGBA32_512x512_2x.has_ostype(ostype) {
            Some(IconType::RGBA32_512x512_2x)
        } else {
            assert forall|v: IconType| v.spec_ostype() != ostype@ by {
                match v {
                    IconType::Mono_32x32 => {},
                    IconType::MonoA_32x32 => {},
                    IconType::RGB24_16x16 => {},
                    IconType::Mask8_16x16 => {},
                    IconType::RGB24_32x32 => {},
                    IconType::Mask8_32x32 => {},
                    IconType::RGB24_48x48 => {},
                    IconType::Mask8_48x48 => {},
                    IconType::RGB24_128x128 => {},
                    IconType::Mask8_128x128 => {},
                    IconType::RGBA32_16x16 => {},
                    IconType::RGBA32_16x16_2x => {},
                    IconType::RGBA32_32x32 => {},
                    IconType::RGBA32_32x32_2x => {},
                    IconType::RGBA32_64x64 => {},
                    IconType::RGBA32_128x128 => {},
                    IconType::RGBA32_128x128_2x => {},
                    IconType::RGBA32_256x256 => {},
                    IconType::RGBA32_256x256_2x => {},
                    IconType::RGBA32_512x512 => {},
                    IconType::RGBA32_512x512_2x => {},
                }
            }
            None
        }
    }

    /// Get the OSType that represents this icon type.
    pub fn ostype(self) -> (t: OSType)
        ensures
            t@ == self.spec_ostype(),
    {
        match self {
            IconType::Mono_32x32 => tag_of('I', 'C', 'O', 'N'),
            IconType::MonoA_32x32 => tag_of('I', 'C', 'N', '#'),
            IconType::RGB24_16x16 => tag_of('i', 's', '3', '2'),
            IconType::Mask8_16x16 => tag_of('s', '8', 'm', 'k'),
            IconType::RGB24_32x32 => tag_of('i', 'l', '3', '2'),
            IconType::Mask8_32x32 => tag_of('l', '8', 'm', 'k'),
            IconType::RGB24_48x48 => tag_of('i', 'h', '3', '2'),
            IconType::Mask8_48x48 => tag_of('h', '8', 'm', 'k'),
            IconType::RGB24_128x128 => tag_of('i', 't', '3', '2'),
            IconType::Mask8_128x128 => tag_of('t', '8', 'm', 'k'),
            IconType::RGBA32_16x16 => tag_of('i', 'c', 'p', '4'),
            IconType::RGBA32_16x16_2x => tag_of('i', 'c', '1', '1'),
            IconType::RGBA32_32x32 => tag_of('i', 'c', 'p', '5'),
            IconType::RGBA32_32x32_2x => tag_of('i', 'c', '1', '2'),
            IconType::RGBA32_64x64 => tag_of('i', 'c', 'p', '6'),
            IconType::RGBA32_128x128 => tag_of('i', 'c', '0', '7'),
            IconType::RGBA32_128x128_2x => tag_of('i', 'c', '1', '3'),
            IconType::RGBA32_256x256 => tag_of('i', 'c', '0', '8'),
            IconType::RGBA32_256x256_2x => tag_of('i', 'c', '1', '4'),
            IconType::RGBA32_512x512 => tag_of('i', 'c', '0', '9'),
            IconType::RGBA32_512x512_2x => tag_of('i', 'c', '1', '0'),
        }
    }
}

} // verus!
