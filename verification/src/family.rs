//! Icon families: the elements of one ICNS file, in order.
//!
//! [`spec_read_family`] and [`spec_write_family`] give the file format, and
//! [`lemma_write_read`] and [`lemma_read_written`] show that each undoes the
//! other.

use crate::element::{
    lemma_framed_of_read, lemma_read_framed, spec_decode_image, spec_decode_image_with_jp2,
    spec_decode_image_with_mask, spec_encode_payload, spec_read_element, spec_takes_jp2,
    ElementView, IconElement,
};
use crate::endian::{be_u32_bytes, lemma_be_round_trip, read_be_u32, spec_be_bytes, spec_be_u32};
use crate::error::IcnsError;
use crate::icontype::IconType;
use crate::image::{spec_outcome, Image, ImageView};
use crate::jp2io::{spec_pixels, Jp2Info};
use vstd::prelude::*;
use vstd::slice::slice_subrange;

verus! {

/// The first four bytes of an ICNS file: `icns`.
pub open spec fn spec_magic() -> Seq<u8> {
    seq![0x69u8, 0x63, 0x6e, 0x73]
}

/// The elements as they stand in a file, one after the other.
pub open spec fn spec_frames(elements: Seq<ElementView>) -> Seq<u8>
    decreases elements.len(),
{
    if elements.len() == 0 {
        Seq::empty()
    } else {
        spec_frames(elements.drop_last()) + elements.last().framed()
    }
}

/// The length of the file that holds the elements: eight bytes of header
/// and the framed length of each element.
pub open spec fn spec_total_length(elements: Seq<ElementView>) -> nat {
    8 + spec_frames(elements).len()
}

/// The file that holds the elements: the magic bytes, the length of the
/// whole file as a big-endian 32-bit number, and the elements in order.
pub open spec fn spec_write_family(elements: Seq<ElementView>) -> Seq<u8> {
    spec_magic() + spec_be_bytes(spec_total_length(elements) as u32) + spec_frames(elements)
}

/// The elements that fill `body` exactly, one after the other, where there
/// are such.
pub open spec fn spec_read_elements(body: Seq<u8>) -> Option<Seq<ElementView>>
    decreases body.len(),
{
    if body.len() == 0 {
        Some(Seq::empty())
    } else {
        match spec_read_element(body) {
            Ok(e) => match spec_read_elements(
                body.subrange(e.framed_len() as int, body.len() as int),
            ) {
                Some(rest) => Some(seq![e] + rest),
                None => None,
            },
            Err(_) => None,
        }
    }
}

/// The length that the header of a file declares for the whole file.
pub open spec fn spec_declared_length(input: Seq<u8>) -> u32 {
    spec_be_u32(input.subrange(4, 8))
}

/// The elements of the file at the front of `input`. What follows the
/// declared length is not looked at.
///
/// An input shorter than the header, or than the length that the header
/// declares, is an `IoError`: it ended early. A header that does not begin
/// with `icns` is an `InvalidMagic`. A declared length under eight, or one
/// that the elements do not fill exactly, is an `InvalidLength`.
pub open spec fn spec_read_family(input: Seq<u8>) -> Result<Seq<ElementView>, IcnsError> {
    if input.len() < 4 {
        Err(IcnsError::IoError)
    } else if input.subrange(0, 4) != spec_magic() {
        Err(IcnsError::InvalidMagic)
    } else if input.len() < 8 {
        Err(IcnsError::IoError)
    } else if spec_declared_length(input) < 8 {
        Err(IcnsError::InvalidLength)
    } else if input.len() < spec_declared_length(input) {
        Err(IcnsError::IoError)
    } else {
        match spec_read_elements(input.subrange(8, spec_declared_length(input) as int)) {
            Some(elements) => Ok(elements),
            None => Err(IcnsError::InvalidLength),
        }
    }
}

/// The index of the first element from `from` on that carries the tag.
pub open spec fn spec_find(elements: Seq<ElementView>, tag: Seq<u8>, from: int) -> Option<int>
    decreases elements.len() - from,
{
    if from < 0 || from >= elements.len() {
        None
    } else if elements[from].ostype == tag {
        Some(from)
    } else {
        spec_find(elements, tag, from + 1)
    }
}

/// Whether the elements hold all that the icon type takes: an element of
/// that type and, where the type has a mask type, an element of the mask
/// type.
pub open spec fn spec_has_icon(elements: Seq<ElementView>, icon_type: IconType) -> bool {
    spec_find(elements, icon_type.spec_ostype(), 0) is Some && (
    icon_type.spec_mask_type() matches Some(m) ==> spec_find(elements, m.spec_ostype(), 0) is Some)
}

/// Whether an element stands for an icon that can be decoded whole: it is
/// of a known type that is no mask, and the mask it takes, if it takes one,
/// is among the elements.
pub open spec fn spec_is_available(elements: Seq<ElementView>, e: ElementView) -> bool {
    e.icon_type() matches Some(t) && !t.spec_is_mask() && (t.spec_mask_type() matches Some(m)
        ==> spec_find(elements, m.spec_ostype(), 0) is Some)
}

/// The icon types of the first `n` elements that stand for an icon that can
/// be decoded whole, in the order of the elements.
pub open spec fn spec_available(elements: Seq<ElementView>, n: int) -> Seq<IconType>
    decreases n,
{
    if n <= 0 {
        Seq::empty()
    } else if spec_is_available(elements, elements[n - 1]) {
        spec_available(elements, n - 1).push(elements[n - 1].icon_type().unwrap())
    } else {
        spec_available(elements, n - 1)
    }
}

/// The image of an icon type that the elements hold, as far as it can be
/// had without a JPEG 2000 decoder.
///
/// The first element of the type is decoded, together with the first
/// element of its mask type where it has one. Where either is missing it is
/// a `NotFound`.
pub open spec fn spec_get_icon(elements: Seq<ElementView>, icon_type: IconType) -> Result<
    ImageView,
    IcnsError,
> {
    match spec_find(elements, icon_type.spec_ostype(), 0) {
        None => Err(IcnsError::NotFound),
        Some(i) => match icon_type.spec_mask_type() {
            None => spec_decode_image(elements[i]),
            Some(m) => match spec_find(elements, m.spec_ostype(), 0) {
                None => Err(IcnsError::NotFound),
                Some(j) => spec_decode_image_with_mask(elements[i], elements[j]),
            },
        },
    }
}

/// The payload that a JPEG 2000 decoder is to be asked about before the
/// image of an icon type can be had: that of the first element of the type,
/// where that element takes such a decoder.
pub open spec fn spec_jp2_payload(elements: Seq<ElementView>, icon_type: IconType) -> Option<
    Seq<u8>,
> {
    match spec_find(elements, icon_type.spec_ostype(), 0) {
        Some(i) => if spec_takes_jp2(elements[i]) {
            Some(elements[i].data)
        } else {
            None
        },
        None => None,
    }
}

/// The image of an icon type that the elements hold, given what a JPEG 2000
/// decoder reported of the payload that [`spec_jp2_payload`] names: `info`
/// is what it read from the headers, if it accepted them, and `pixels` the
/// raster that it made, if it made one.
pub open spec fn spec_get_icon_with_jp2(
    elements: Seq<ElementView>,
    icon_type: IconType,
    info: Option<Jp2Info>,
    pixels: Option<Seq<u8>>,
) -> Result<ImageView, IcnsError> {
    match spec_find(elements, icon_type.spec_ostype(), 0) {
        None => Err(IcnsError::NotFound),
        Some(i) => match icon_type.spec_mask_type() {
            None => spec_decode_image_with_jp2(elements[i], info, pixels),
            Some(m) => match spec_find(elements, m.spec_ostype(), 0) {
                None => Err(IcnsError::NotFound),
                Some(j) => spec_decode_image_with_mask(elements[i], elements[j]),
            },
        },
    }
}

/// The element that is found carries the tag, from `from` on.
pub proof fn lemma_found_is_tagged(elements: Seq<ElementView>, tag: Seq<u8>, from: int)
    requires
        0 <= from,
    ensures
        spec_find(elements, tag, from) matches Some(i) ==> from <= i < elements.len()
            && elements[i].ostype == tag,
    decreases elements.len() - from,
{
    if from < elements.len() && elements[from].ostype != tag {
        lemma_found_is_tagged(elements, tag, from + 1);
    }
}

/// Where a payload is for a JPEG 2000 decoder, the image cannot be had
/// without one: it is an `UnsupportedPayload`.
pub proof fn lemma_get_icon_needs_jp2(elements: Seq<ElementView>, icon_type: IconType)
    requires
        spec_jp2_payload(elements, icon_type) is Some,
    ensures
        spec_get_icon(elements, icon_type) == Err::<ImageView, IcnsError>(
            IcnsError::UnsupportedPayload,
        ),
{
    lemma_found_is_tagged(elements, icon_type.spec_ostype(), 0);
    icon_type.lemma_ostype_round_trip();
    icon_type.lemma_mask_pairing();
}

/// Where no payload is for a JPEG 2000 decoder, its report counts for
/// nothing.
pub proof fn lemma_get_icon_without_jp2(
    elements: Seq<ElementView>,
    icon_type: IconType,
    info: Option<Jp2Info>,
    pixels: Option<Seq<u8>>,
)
    requires
        spec_jp2_payload(elements, icon_type) is None,
    ensures
        spec_get_icon_with_jp2(elements, icon_type, info, pixels) == spec_get_icon(
            elements,
            icon_type,
        ),
{
}

/// The elements after an image has been added under an icon type: one
/// element more that holds the image, and after it, where the type has a
/// mask type, one that holds the image's alpha.
pub open spec fn spec_add_icon(
    elements: Seq<ElementView>,
    image: ImageView,
    icon_type: IconType,
) -> Result<Seq<ElementView>, IcnsError> {
    match spec_encode_payload(image, icon_type) {
        Err(e) => Err(e),
        Ok(data) => {
            let added = elements.push(ElementView { ostype: icon_type.spec_ostype(), data });
            match icon_type.spec_mask_type() {
                None => Ok(added),
                Some(m) => Ok(
                    added.push(ElementView { ostype: m.spec_ostype(), data: image.alphas() }),
                ),
            }
        },
    }
}

/// An element that carries a tag is found, at its own place or before.
pub proof fn lemma_find_some(elements: Seq<ElementView>, tag: Seq<u8>, from: int, at: int)
    requires
        0 <= from <= at < elements.len(),
        elements[at].ostype == tag,
    ensures
        spec_find(elements, tag, from) matches Some(i) && from <= i <= at && elements[i].ostype
            == tag,
    decreases at - from,
{
    if elements[from].ostype != tag {
        lemma_find_some(elements, tag, from + 1, at);
    }
}

/// Every icon type that is listed as available is held whole: what is
/// listed can be decoded as far as the elements it takes are concerned.
pub proof fn lemma_available_has_icon(elements: Seq<ElementView>, n: int, k: int)
    requires
        0 <= n <= elements.len(),
        0 <= k < spec_available(elements, n).len(),
    ensures
        spec_has_icon(elements, spec_available(elements, n)[k]),
        !spec_available(elements, n)[k].spec_is_mask(),
    decreases n,
{
    if n > 0 {
        let e = elements[n - 1];
        let before = spec_available(elements, n - 1);
        if k < before.len() {
            lemma_available_has_icon(elements, n - 1, k);
        } else {
            let t = e.icon_type().unwrap();
            IconType::lemma_from_ostype_sound(e.ostype);
            lemma_find_some(elements, t.spec_ostype(), 0, n - 1);
        }
    }
}

/// The elements read so far put in front of what the rest of the body
/// holds.
pub open spec fn prepend_elements(head: Seq<ElementView>, rest: Option<Seq<ElementView>>) -> Option<
    Seq<ElementView>,
> {
    match rest {
        Some(tail) => Some(head + tail),
        None => None,
    }
}

/// Every element's tag has four bytes.
pub open spec fn spec_all_wf(elements: Seq<ElementView>) -> bool {
    forall|i: int| 0 <= i < elements.len() ==> (#[trigger] elements[i]).wf()
}

/// The frames of the first elements are no longer than the frames of all,
/// and a further element adds its frame.
pub proof fn lemma_frames_prefix(elements: Seq<ElementView>, n: int)
    requires
        0 <= n <= elements.len(),
    ensures
        spec_frames(elements.subrange(0, n)).len() <= spec_frames(elements).len(),
        n < elements.len() ==> spec_frames(elements.subrange(0, n + 1)) == spec_frames(
            elements.subrange(0, n),
        ) + elements[n].framed() && spec_frames(elements.subrange(0, n)).len()
            + elements[n].framed().len() <= spec_frames(elements).len(),
    decreases elements.len() - n,
{
    if n < elements.len() {
        assert(elements.subrange(0, n + 1).drop_last() =~= elements.subrange(0, n));
        lemma_frames_prefix(elements, n + 1);
    } else {
        assert(elements.subrange(0, n) =~= elements);
    }
}

/// The frames of two runs of elements, one after the other, are the frames
/// of the first followed by the frames of the second.
pub proof fn lemma_frames_concat(a: Seq<ElementView>, b: Seq<ElementView>)
    ensures
        spec_frames(a + b) == spec_frames(a) + spec_frames(b),
    decreases b.len(),
{
    if b.len() == 0 {
        assert(a + b =~= a);
        assert(spec_frames(a) + spec_frames(b) =~= spec_frames(a));
    } else {
        lemma_frames_concat(a, b.drop_last());
        assert((a + b).drop_last() =~= a + b.drop_last());
        assert((a + b).last() == b.last());
        assert(spec_frames(a) + spec_frames(b.drop_last()) + b.last().framed() =~= spec_frames(a)
            + (spec_frames(b.drop_last()) + b.last().framed()));
    }
}

/// The frames of one element are its frame.
pub proof fn lemma_frames_one(e: ElementView)
    ensures
        spec_frames(seq![e]) == e.framed(),
{
    let one = seq![e];
    assert(one.drop_last() =~= Seq::<ElementView>::empty());
    assert(spec_frames(one.drop_last()) =~= Seq::<u8>::empty());
    assert(one.last() == e);
    assert(spec_frames(one) =~= e.framed());
}

/// The frames of elements read back are those elements.
pub proof fn lemma_read_frames(elements: Seq<ElementView>)
    requires
        spec_all_wf(elements),
        spec_total_length(elements) <= u32::MAX,
    ensures
        spec_read_elements(spec_frames(elements)) == Some(elements),
    decreases elements.len(),
{
    if elements.len() == 0 {
    } else {
        let first = elements[0];
        let tail = elements.subrange(1, elements.len() as int);
        assert(seq![first] + tail =~= elements);
        lemma_frames_concat(seq![first], tail);
        lemma_frames_one(first);
        let body = spec_frames(elements);
        assert(body == first.framed() + spec_frames(tail));
        assert(first.wf());
        assert(first.framed().len() == first.framed_len());
        lemma_read_framed(first, spec_frames(tail));
        assert(body.subrange(first.framed_len() as int, body.len() as int) =~= spec_frames(tail));
        assert forall|i: int| 0 <= i < tail.len() implies (#[trigger] tail[i]).wf() by {
            assert(tail[i] == elements[i + 1]);
        }
        lemma_read_frames(tail);
    }
}

/// What was read from a body is what the body frames: the elements are
/// well-formed and their frames, one after the other, are the body.
pub proof fn lemma_frames_of_read(body: Seq<u8>)
    ensures
        spec_read_elements(body) matches Some(elements) ==> spec_all_wf(elements) && spec_frames(
            elements,
        ) == body,
    decreases body.len(),
{
    if body.len() == 0 {
    } else if let Ok(e) = spec_read_element(body) {
        lemma_framed_of_read(body);
        let rest = body.subrange(e.framed_len() as int, body.len() as int);
        lemma_frames_of_read(rest);
        if let Some(tail) = spec_read_elements(rest) {
            let elements = seq![e] + tail;
            lemma_frames_concat(seq![e], tail);
            lemma_frames_one(e);
            assert(e.framed() + rest =~= body);
        }
    }
}

/// A family that is written and read again is the same family, whatever
/// follows it in the input.
pub proof fn lemma_read_written(elements: Seq<ElementView>, rest: Seq<u8>)
    requires
        spec_all_wf(elements),
        spec_total_length(elements) <= u32::MAX,
    ensures
        spec_read_family(spec_write_family(elements) + rest) == Ok::<Seq<ElementView>, IcnsError>(
            elements,
        ),
{
    let total = spec_total_length(elements) as u32;
    let input = spec_write_family(elements) + rest;
    lemma_be_round_trip(total, spec_be_bytes(total));
    assert(input.subrange(0, 4) =~= spec_magic());
    assert(input.subrange(4, 8) =~= spec_be_bytes(total));
    assert(input.subrange(8, total as int) =~= spec_frames(elements));
    lemma_read_frames(elements);
}

/// A file that was read and is written again is the same file: the bytes of
/// the input up to the length that its header declares.
pub proof fn lemma_write_read(input: Seq<u8>)
    ensures
        spec_read_family(input) matches Ok(elements) ==> spec_all_wf(elements)
            && spec_total_length(elements) == spec_declared_length(input) && spec_write_family(
            elements,
        ) == input.subrange(0, spec_declared_length(input) as int),
{
    if let Ok(elements) = spec_read_family(input) {
        let total = spec_declared_length(input);
        let body = input.subrange(8, total as int);
        lemma_frames_of_read(body);
        lemma_be_round_trip(total, input.subrange(4, 8));
        assert(spec_write_family(elements) =~= input.subrange(0, 4) + input.subrange(4, 8) + body);
        assert(input.subrange(0, 4) + input.subrange(4, 8) + body =~= input.subrange(
            0,
            total as int,
        ));
    }
}

/// The file of a family without elements is the eight bytes of the header,
/// with the length eight.
pub proof fn lemma_write_empty()
    ensures
        spec_write_family(Seq::empty()) == seq![0x69u8, 0x63, 0x6e, 0x73, 0, 0, 0, 8],
{
    assert(spec_write_family(Seq::empty()) =~= seq![0x69u8, 0x63, 0x6e, 0x73, 0, 0, 0, 8]);
}

/// A set of icons stored in a single ICNS file.
pub struct IconFamily {
    /// The icon elements stored in the ICNS file.
    pub elements: Vec<IconElement>,
}

impl View for IconFamily {
    type V = Seq<ElementView>;

    open spec fn view(&self) -> Seq<ElementView> {
        self.elements.deep_view()
    }
}

impl IconFamily {
    /// Creates a new, empty icon family.
    pub fn new() -> (family: IconFamily)
        ensures
            family@ == Seq::<ElementView>::empty(),
    {
        let family = IconFamily { elements: Vec::new() };
        assert(family@ =~= Seq::<ElementView>::empty());
        family
    }

    /// Returns true if the icon family contains no icons nor any other
    /// elements.
    pub fn is_empty(&self) -> (r: bool)
        ensures
            r == (self@.len() == 0),
    {
        self.elements.len() == 0
    }

    /// The place of the first element of the given icon type.
    fn find_element(&self, icon_type: IconType) -> (r: Option<usize>)
        ensures
            match r {
                Some(i) => spec_find(self@, icon_type.spec_ostype(), 0) == Some(i as int) && i
                    < self.elements@.len() && self@[i as int].ostype == icon_type.spec_ostype(),
                None => spec_find(self@, icon_type.spec_ostype(), 0) is None,
            },
    {
        let ostype = icon_type.ostype();
        let mut i: usize = 0;
        while i < self.elements.len()
            invariant
                i <= self.elements@.len(),
                ostype@ == icon_type.spec_ostype(),
                spec_find(self@, icon_type.spec_ostype(), 0) == spec_find(
                    self@,
                    icon_type.spec_ostype(),
                    i as int,
                ),
            decreases self.elements@.len() - i,
        {
            let found = self.elements[i].ostype();
            proof {
                found.lemma_eq_is_bytewise(ostype);
            }
            if found == ostype {
                return Some(i);
            }
            i += 1;
        }
        None
    }

    /// Determines whether the icon family contains a complete icon with the
    /// given type (including the mask, if the given icon type has an
    /// associated mask type).
    pub fn has_icon_with_type(&self, icon_type: IconType) -> (r: bool)
        ensures
            r == spec_has_icon(self@, icon_type),
    {
        if self.find_element(icon_type).is_none() {
            return false;
        } else if let Some(mask_type) = icon_type.mask_type() {
            return self.find_element(mask_type).is_some();
        }
        true
    }

    /// Encodes the image into the family, automatically choosing an
    /// appropriate icon type based on the dimensions of the image and on
    /// whether its format has alpha.  Returns an error if there is no
    /// supported icon type matching the image dimensions.
    pub fn add_icon(&mut self, image: &Image) -> (r: Result<(), IcnsError>)
        requires
            image.wf(),
        ensures
            match IconType::spec_from_pixel_size(
                image@.width,
                image@.height,
                image@.format.spec_has_alpha(),
            ) {
                None => r == Err::<(), IcnsError>(IcnsError::NoMatchingType) && final(self)@
                    == old(self)@,
                Some(t) => match r {
                    Ok(()) => spec_add_icon(old(self)@, image@, t) == Ok::<
                        Seq<ElementView>,
                        IcnsError,
                    >(final(self)@),
                    Err(e) => spec_add_icon(old(self)@, image@, t) == Err::<
                        Seq<ElementView>,
                        IcnsError,
                    >(e) && final(self)@ == old(self)@,
                },
            },
    {
        let has_alpha = image.pixel_format().has_alpha();
        match IconType::from_pixel_size(image.width(), image.height(), has_alpha) {
            Some(icon_type) => self.add_icon_with_type(image, icon_type),
            None => Err(IcnsError::NoMatchingType),
        }
    }

    /// Encodes the image into the family using the given icon type.  If the
    /// selected type has an associated mask type, the image mask will also be
    /// added to the family.  Returns an error if the image has the wrong
    /// dimensions for the selected type; the family is then as it was.
    pub fn add_icon_with_type(&mut self, image: &Image, icon_type: IconType) -> (r: Result<
        (),
        IcnsError,
    >)
        requires
            image.wf(),
        ensures
            match r {
                Ok(()) => spec_add_icon(old(self)@, image@, icon_type) == Ok::<
                    Seq<ElementView>,
                    IcnsError,
                >(final(self)@),
                Err(e) => spec_add_icon(old(self)@, image@, icon_type) == Err::<
                    Seq<ElementView>,
                    IcnsError,
                >(e) && final(self)@ == old(self)@,
            },
    {
        let element = match IconElement::encode_image_with_type(image, icon_type) {
            Ok(element) => element,
            Err(e) => {
                return Err(e);
            },
        };
        let ghost before = self@;
        let ghost first = element@;
        match icon_type.mask_type() {
            Some(mask_type) => {
                proof {
                    icon_type.lemma_mask_pairing();
                }
                let mask = match IconElement::encode_image_with_type(image, mask_type) {
                    Ok(mask) => mask,
                    Err(e) => {
                        return Err(e);
                    },
                };
                let ghost second = mask@;
                self.elements.push(element);
                self.elements.push(mask);
                assert(self@ =~= before.push(first).push(second));
            },
            None => {
                self.elements.push(element);
                assert(self@ =~= before.push(first));
            },
        }
        Ok(())
    }

    /// Returns a list of all (non-mask) icon types for which the icon family
    /// contains the necessary element(s) for a complete icon image (including
    /// alpha channel).  These icon types can be passed to the
    /// [`get_icon_with_type`](#method.get_icon_with_type) method to decode the
    /// icons.
    pub fn available_icons(&self) -> (result: Vec<IconType>)
        ensures
            result@ == spec_available(self@, self@.len() as int),
    {
        let mut result: Vec<IconType> = Vec::new();
        let mut i: usize = 0;
        while i < self.elements.len()
            invariant
                i <= self.elements@.len(),
                result@ == spec_available(self@, i as int),
            decreases self.elements@.len() - i,
        {
            if let Some(icon_type) = self.elements[i].icon_type() {
                if !icon_type.is_mask() {
                    if let Some(mask_type) = icon_type.mask_type() {
                        if self.find_element(mask_type).is_some() {
                            result.push(icon_type);
                        }
                    } else {
                        result.push(icon_type);
                    }
                }
            }
            i += 1;
        }
        result
    }

    /// Decodes an image from the family with the given icon type.  If the
    /// selected type has an associated mask type, the two elements will be
    /// decoded together into a single image.  Returns an error if the
    /// element(s) for the selected type are not present in the icon family, or
    /// if the encoded data is malformed.
    ///
    /// An element whose payload is a JPEG 2000 file is an
    /// `UnsupportedPayload` here: [`IconFamily::get_icon_with_jp2`] takes what
    /// a decoder made of it.
    pub fn get_icon_with_type(&self, icon_type: IconType) -> (r: Result<Image, IcnsError>)
        ensures
            spec_outcome(r) == spec_get_icon(self@, icon_type),
            r matches Ok(image) ==> image.wf(),
    {
        let element = match self.find_element(icon_type) {
            Some(i) => &self.elements[i],
            None => {
                return Err(IcnsError::NotFound);
            },
        };
        if let Some(mask_type) = icon_type.mask_type() {
            match self.find_element(mask_type) {
                Some(j) => element.decode_image_with_mask(&self.elements[j]),
                None => Err(IcnsError::NotFound),
            }
        } else {
            element.decode_image()
        }
    }

    /// Returns the payload that a JPEG 2000 decoder is to be asked about
    /// before the image of the given icon type can be had, or `None` where
    /// [`IconFamily::get_icon_with_type`] needs no decoder.
    pub fn jp2_payload(&self, icon_type: IconType) -> (r: Option<&[u8]>)
        ensures
            match r {
                Some(data) => spec_jp2_payload(self@, icon_type) == Some(data@),
                None => spec_jp2_payload(self@, icon_type) is None,
            },
    {
        match self.find_element(icon_type) {
            Some(i) => {
                if self.elements[i].takes_jp2() {
                    Some(self.elements[i].data())
                } else {
                    None
                }
            },
            None => None,
        }
    }

    /// Decodes an image from the family with the given icon type, given what
    /// a JPEG 2000 decoder reported of the payload that
    /// [`IconFamily::jp2_payload`] returns: `info` is what it read from the
    /// headers, or `None` where it refused them, and `pixels` is the raster
    /// that it made, or `None` where it made none.
    pub fn get_icon_with_jp2(
        &self,
        icon_type: IconType,
        info: Option<Jp2Info>,
        pixels: Option<Vec<u8>>,
    ) -> (r: Result<Image, IcnsError>)
        ensures
            spec_outcome(r) == spec_get_icon_with_jp2(self@, icon_type, info, spec_pixels(pixels)),
            r matches Ok(image) ==> image.wf(),
    {
        let element = match self.find_element(icon_type) {
            Some(i) => &self.elements[i],
            None => {
                return Err(IcnsError::NotFound);
            },
        };
        if let Some(mask_type) = icon_type.mask_type() {
            match self.find_element(mask_type) {
                Some(j) => element.decode_image_with_mask(&self.elements[j]),
                None => Err(IcnsError::NotFound),
            }
        } else {
            element.decode_image_with_jp2(info, pixels)
        }
    }

    /// The encoded length of the file, where it fits the 32-bit field that
    /// carries it.
    fn checked_total_length(&self) -> (r: Option<u32>)
        ensures
            match r {
                Some(len) => len == spec_total_length(self@),
                None => spec_total_length(self@) > u32::MAX,
            },
    {
        let mut length: u64 = 8;
        let mut i: usize = 0;
        assert(self@.subrange(0, 0) =~= Seq::<ElementView>::empty());
        while i < self.elements.len()
            invariant
                i <= self.elements@.len(),
                length == 8 + spec_frames(self@.subrange(0, i as int)).len(),
                length <= u32::MAX,
            decreases self.elements@.len() - i,
        {
            let payload = self.elements[i].data().len();
            proof {
                self.elements[i as int].lemma_wf();
                lemma_frames_prefix(self@, i as int);
                lemma_be_round_trip(0, spec_be_bytes(0));
                assert(self@[i as int].framed().len() == 8 + payload);
            }
            if payload > 0xffff_fff7 {
                return None;
            }
            length = length + 8 + payload as u64;
            if length > 0xffff_ffff {
                return None;
            }
            i += 1;
        }
        assert(self@.subrange(0, i as int) =~= self@);
        Some(length as u32)
    }

    /// Returns the encoded length of the file, in bytes, including the
    /// length of the header.
    pub fn total_length(&self) -> (len: u32)
        requires
            spec_total_length(self@) <= u32::MAX,
        ensures
            len == spec_total_length(self@),
    {
        match self.checked_total_length() {
            Some(len) => len,
            None => 0,
        }
    }

    /// Reads an icon family from the bytes of an ICNS file.
    pub fn read(input: &[u8]) -> (r: Result<IconFamily, IcnsError>)
        ensures
            match r {
                Ok(family) => spec_read_family(input@) == Ok::<Seq<ElementView>, IcnsError>(
                    family@,
                ),
                Err(e) => spec_read_family(input@) == Err::<Seq<ElementView>, IcnsError>(e),
            },
    {
        if input.len() < 4 {
            return Err(IcnsError::IoError);
        }
        let magic_ok = input[0] == 0x69 && input[1] == 0x63 && input[2] == 0x6e && input[3]
            == 0x73;
        proof {
            let head = input@.subrange(0, 4);
            if magic_ok {
                assert(head =~= spec_magic());
            } else {
                assert(head[0] == input@[0] && head[1] == input@[1] && head[2] == input@[2]
                    && head[3] == input@[3]);
            }
        }
        if !magic_ok {
            return Err(IcnsError::InvalidMagic);
        }
        if input.len() < 8 {
            return Err(IcnsError::IoError);
        }
        let file_length = read_be_u32(slice_subrange(input, 4, 8));
        if file_length < 8 {
            return Err(IcnsError::InvalidLength);
        }
        if input.len() < file_length as usize {
            return Err(IcnsError::IoError);
        }
        let body = slice_subrange(input, 8, file_length as usize);
        let mut family = IconFamily::new();
        let mut position: usize = 0;
        proof {
            assert(body@.subrange(0, body@.len() as int) =~= body@);
            if let Some(tail) = spec_read_elements(body@) {
                assert(family@ + tail =~= tail);
            }
        }
        while position < body.len()
            invariant
                position <= body@.len(),
                spec_read_family(input@) == (match spec_read_elements(body@) {
                    Some(elements) => Ok::<Seq<ElementView>, IcnsError>(elements),
                    None => Err::<Seq<ElementView>, IcnsError>(IcnsError::InvalidLength),
                }),
                spec_read_elements(body@) == prepend_elements(
                    family@,
                    spec_read_elements(body@.subrange(position as int, body@.len() as int)),
                ),
            decreases body@.len() - position,
        {
            let rest = slice_subrange(body, position, body.len());
            let element = match IconElement::read(rest) {
                Ok(element) => element,
                Err(_) => {
                    return Err(IcnsError::InvalidLength);
                },
            };
            proof {
                lemma_framed_of_read(rest@);
                let e = element@;
                let after = rest@.subrange(e.framed_len() as int, rest@.len() as int);
                assert(after =~= body@.subrange(
                    position + e.framed_len(),
                    body@.len() as int,
                ));
                if let Some(tail) = spec_read_elements(after) {
                    assert(family@ + (seq![e] + tail) =~= family@.push(e) + tail);
                }
            }
            let ghost before = family@;
            let ghost e = element@;
            position = position + element.total_length() as usize;
            family.elements.push(element);
            assert(family@ =~= before.push(e));
        }
        proof {
            assert(body@.subrange(position as int, body@.len() as int).len() == 0);
            assert(family@ + Seq::<ElementView>::empty() =~= family@);
        }
        Ok(family)
    }

    /// Writes the icon family as an ICNS file, appending to `output`. A
    /// family too long for the 32-bit length field is an `InvalidLength`,
    /// and nothing is written.
    pub fn write(&self, output: &mut Vec<u8>) -> (r: Result<(), IcnsError>)
        ensures
            match r {
                Ok(()) => spec_total_length(self@) <= u32::MAX && final(output)@ == old(output)@
                    + spec_write_family(self@),
                Err(e) => e == IcnsError::InvalidLength && spec_total_length(self@) > u32::MAX
                    && final(output)@ == old(output)@,
            },
    {
        let total = match self.checked_total_length() {
            Some(total) => total,
            None => {
                return Err(IcnsError::InvalidLength);
            },
        };
        let len = be_u32_bytes(total);
        let mut file: Vec<u8> = Vec::new();
        file.push(0x69);
        file.push(0x63);
        file.push(0x6e);
        file.push(0x73);
        file.push(len[0]);
        file.push(len[1]);
        file.push(len[2]);
        file.push(len[3]);
        let ghost header = spec_magic() + spec_be_bytes(total);
        assert(file@ =~= header);
        let mut i: usize = 0;
        assert(self@.subrange(0, 0) =~= Seq::<ElementView>::empty());
        assert(file@ =~= header + spec_frames(self@.subrange(0, 0)));
        while i < self.elements.len()
            invariant
                i <= self.elements@.len(),
                spec_total_length(self@) <= u32::MAX,
                file@ == header + spec_frames(self@.subrange(0, i as int)),
            decreases self.elements@.len() - i,
        {
            proof {
                self.elements[i as int].lemma_wf();
                lemma_frames_prefix(self@, i as int);
                lemma_be_round_trip(0, spec_be_bytes(0));
            }
            let ghost before = file@;
            match self.elements[i].write(&mut file) {
                Ok(()) => {},
                Err(e) => {
                    return Err(e);
                },
            }
            assert(file@ =~= header + (spec_frames(self@.subrange(0, i as int))
                + self@[i as int].framed()));
            i += 1;
        }
        assert(self@.subrange(0, i as int) =~= self@);
        output.append(&mut file);
        Ok(())
    }
}

} // verus!
