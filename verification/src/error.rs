//! The one error type of the crate.

use vstd::prelude::*;

verus! {

/// Why an operation on icon data failed.
#[derive(Clone, Copy, Debug, PartialEq, Eq, Structural)]
pub enum IcnsError {
    /// The data does not begin with the four bytes `icns`.
    InvalidMagic,
    /// A length field is smaller than the header it counts, or the elements
    /// do not end exactly where the family says it ends, or a length does not
    /// fit the 32-bit field that would carry it, or a buffer would be longer
    /// than memory can hold.
    InvalidLength,
    /// The element's tag is not one of the known icon types.
    UnsupportedOSType,
    /// The image's size is not the size of the icon type, or a decoded
    /// payload's size is not.
    DimensionMismatch,
    /// A payload of fixed size (mask, monochrome bitmap) has the wrong length,
    /// or a pixel buffer does not match its stated dimensions.
    PayloadSize,
    /// A run-length stream is cut short, runs past its end, or has a packet
    /// that straddles two channels.
    InvalidRLE,
    /// The payload is in a form this crate does not handle: a PNG color type
    /// or bit depth outside the supported ones, a JPEG 2000 color space other
    /// than gray or RGB, a decoded raster whose length is not what its format
    /// and dimensions call for, a JPEG 2000 payload where no decoder's report
    /// of it is at hand, or a mask paired with something that takes none.
    UnsupportedPayload,
    /// No icon type has the image's dimensions.
    NoMatchingType,
    /// The family holds no element of the requested type.
    NotFound,
    /// The input ended early, or an image codec reported a failure.
    IoError,
}

} // verus!
