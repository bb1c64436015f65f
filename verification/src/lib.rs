//! Reading and writing Apple Icon Image (`.icns`) data.
//!
//! An ICNS file holds an *icon family*: a short header followed by a run of
//! *icon elements*, each a four-byte [`OSType`] tag, a length, and a payload.
//! The payload of an element is a raster in one of a few encodings
//! ([`Encoding`]), and the closed set of tags this crate can decode is
//! [`IconType`].
//!
//! Everything here works on bytes in memory. [`IconFamily::read`] parses a
//! whole file, [`IconFamily::write`] emits one, and the image methods move
//! between element payloads and [`Image`] values.
//!
//! Each type has a mathematical value, its view, and each function says in
//! its contract what it returns in terms of those values. The modules hold
//! the specifications next to the code: [`family`] and [`element`] for the
//! container, [`rle`] and [`mono`] for the payloads that are coded here,
//! [`pngio`] and [`jp2io`] for those that an image codec handles.
//!
//! PNG payloads are coded here, through the `png` crate. JPEG 2000 payloads
//! are not decoded here: the functions whose names end in `with_jp2`, and
//! [`Image::read_jp2`], take what a decoder of the caller's reported.

pub mod element;
pub mod endian;
pub mod error;
pub mod family;
pub mod icontype;
pub mod image;
pub mod jp2io;
pub mod mono;
pub mod pngio;
pub mod rle;
pub mod text;

pub use self::element::{ElementView, IconElement};
pub use self::error::IcnsError;
pub use self::family::IconFamily;
pub use self::icontype::{Encoding, IconType, OSType};
pub use self::image::{Color, Image, ImageView, PixelFormat};
