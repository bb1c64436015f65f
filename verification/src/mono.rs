//! One-bit bitmaps: eight pixels to a byte, the first in the highest bit.

use crate::rle::{plane, sample};
use vstd::prelude::*;

verus! {

/// Bit `i` of a packed bitmap: eight pixels to a byte, the first pixel in the
/// most significant bit.
pub open spec fn bit_at(bytes: Seq<u8>, i: int) -> bool {
    (bytes[i / 8] >> ((7 - i % 8) as u8)) & 1 == 1
}

/// The weight of a bit in its byte where the bit is set, and zero where it
/// is not.
pub open spec fn spec_weight(bit: bool, weight: u8) -> u8 {
    if bit {
        weight
    } else {
        0
    }
}

/// The byte that packs the eight bits from `at` on.
pub open spec fn spec_pack_byte(bits: Seq<bool>, at: int) -> u8 {
    spec_weight(bits[at], 0x80) | spec_weight(bits[at + 1], 0x40) | spec_weight(bits[at + 2], 0x20)
        | spec_weight(bits[at + 3], 0x10) | spec_weight(bits[at + 4], 0x08) | spec_weight(
        bits[at + 5],
        0x04,
    ) | spec_weight(bits[at + 6], 0x02) | spec_weight(bits[at + 7], 0x01)
}

/// The packed bitmap of a sequence of bits whose length is a multiple of
/// eight.
pub open spec fn spec_pack(bits: Seq<bool>) -> Seq<u8> {
    Seq::new(bits.len() / 8, |j: int| spec_pack_byte(bits, 8 * j))
}

/// The bits of a packed bitmap, one for each pixel.
pub open spec fn spec_unpack(bytes: Seq<u8>) -> Seq<bool> {
    Seq::new(8 * bytes.len(), |i: int| bit_at(bytes, i))
}

/// One bit for each byte of a plane: whether the byte is 128 or more, or,
/// where `dark` is set, whether it is less.
pub open spec fn spec_threshold(values: Seq<u8>, dark: bool) -> Seq<bool> {
    Seq::new(values.len(), |i: int| (values[i] >= 128) != dark)
}

/// One byte for each bit: 255 where the bit is set and 0 where it is not,
/// or, where `dark` is set, the other way round.
pub open spec fn spec_spread(bits: Seq<bool>, dark: bool) -> Seq<u8> {
    Seq::new(
        bits.len(),
        |i: int|
            if bits[i] != dark {
                255u8
            } else {
                0u8
            },
    )
}

/// Each bit read back from a packed bitmap is the bit that was packed.
pub proof fn lemma_unpack_pack(bits: Seq<bool>)
    requires
        bits.len() % 8 == 0,
    ensures
        spec_unpack(spec_pack(bits)) == bits,
{
    let packed = spec_pack(bits);
    assert(spec_unpack(packed).len() == bits.len());
    assert forall|i: int| 0 <= i < bits.len() implies spec_unpack(packed)[i] == bits[i] by {
        let j = i / 8;
        let k = (i % 8) as u8;
        let at = 8 * j;
        let t0: u8 = if bits[at] { 0x80 } else { 0 };
        let t1: u8 = if bits[at + 1] { 0x40 } else { 0 };
        let t2: u8 = if bits[at + 2] { 0x20 } else { 0 };
        let t3: u8 = if bits[at + 3] { 0x10 } else { 0 };
        let t4: u8 = if bits[at + 4] { 0x08 } else { 0 };
        let t5: u8 = if bits[at + 5] { 0x04 } else { 0 };
        let t6: u8 = if bits[at + 6] { 0x02 } else { 0 };
        let t7: u8 = if bits[at + 7] { 0x01 } else { 0 };
        let byte = t0 | t1 | t2 | t3 | t4 | t5 | t6 | t7;
        assert(packed[j] == byte);
        let shift = (7 - k) as u8;
        assert(((byte >> shift) & 1 == 1) == (if k == 0 {
            t0 == 0x80
        } else if k == 1 {
            t1 == 0x40
        } else if k == 2 {
            t2 == 0x20
        } else if k == 3 {
            t3 == 0x10
        } else if k == 4 {
            t4 == 0x08
        } else if k == 5 {
            t5 == 0x04
        } else if k == 6 {
            t6 == 0x02
        } else {
            t7 == 0x01
        })) by (bit_vector)
            requires
                byte == t0 | t1 | t2 | t3 | t4 | t5 | t6 | t7,
                k < 8,
                shift == 7 - k,
                t0 == 0x80 || t0 == 0,
                t1 == 0x40 || t1 == 0,
                t2 == 0x20 || t2 == 0,
                t3 == 0x10 || t3 == 0,
                t4 == 0x08 || t4 == 0,
                t5 == 0x04 || t5 == 0,
                t6 == 0x02 || t6 == 0,
                t7 == 0x01 || t7 == 0,
        ;
    }
    assert(spec_unpack(packed) =~= bits);
}

/// Reads bit `i` of a packed bitmap.
pub fn bit(bytes: &[u8], i: usize) -> (b: bool)
    requires
        i < 8 * bytes@.len(),
    ensures
        b == bit_at(bytes@, i as int),
{
    let byte = bytes[i / 8];
    let shift = (7 - i % 8) as u8;
    (byte >> shift) & 1 == 1
}

/// The bitmap of a one-bit icon made from gray bytes: a set bit, ink, where
/// the pixel is darker than 128.
pub open spec fn spec_encode_mono(gray: Seq<u8>) -> Seq<u8> {
    spec_pack(spec_threshold(gray, true))
}

/// The bitmap of a mask made from alpha bytes: a set bit where alpha is 128
/// or more.
pub open spec fn spec_encode_mask(alpha: Seq<u8>) -> Seq<u8> {
    spec_pack(spec_threshold(alpha, false))
}

/// The gray bytes that a one-bit bitmap stands for: 0 where the bit is set,
/// 255 where it is not.
pub open spec fn spec_decode_mono(payload: Seq<u8>) -> Seq<u8> {
    spec_spread(spec_unpack(payload), true)
}

/// The alpha bytes that a one-bit mask stands for: 255 where the bit is set,
/// 0 where it is not.
pub open spec fn spec_decode_mask(payload: Seq<u8>) -> Seq<u8> {
    spec_spread(spec_unpack(payload), false)
}

/// 255 or 0 for a bit, the other way round where `dark` is set.
fn spread(b: bool, dark: bool) -> (v: u8)
    ensures
        v == (if b != dark {
            255u8
        } else {
            0u8
        }),
{
    if b != dark {
        255
    } else {
        0
    }
}

/// The weight `w` where the byte is on the set side of 128, and 0 where it
/// is not.
fn weigh(v: u8, dark: bool, w: u8) -> (t: u8)
    ensures
        t == (if (v >= 128) != dark {
            w
        } else {
            0u8
        }),
{
    if (v >= 128) != dark {
        w
    } else {
        0
    }
}

/// Appends the bitmap of plane `c` of an interleaved buffer of `n` pixels.
pub fn pack_plane(
    output: &mut Vec<u8>,
    input: &[u8],
    stride: usize,
    c: usize,
    n: usize,
    dark: bool,
)
    requires
        c < stride,
        input@.len() == stride * n,
        n % 8 == 0,
    ensures
        final(output)@ == old(output)@ + spec_pack(
            spec_threshold(plane(input@, stride as int, c as int, n as nat), dark),
        ),
{
    let ghost values = plane(input@, stride as int, c as int, n as nat);
    let ghost bits = spec_threshold(values, dark);
    let nn: Ghost<nat> = Ghost(n as nat);
    let count = n / 8;
    let mut j: usize = 0;
    assert(output@ =~= old(output)@ + spec_pack(bits).subrange(0, 0));
    while j < count
        invariant
            j <= count,
            count == n / 8,
            n % 8 == 0,
            c < stride,
            nn@ == n as nat,
            input@.len() == stride * n,
            values == plane(input@, stride as int, c as int, n as nat),
            bits == spec_threshold(values, dark),
            output@ == old(output)@ + spec_pack(bits).subrange(0, j as int),
        decreases count - j,
    {
        let at = 8 * j;
        let t0 = weigh(sample(input, stride, c, at, nn), dark, 0x80);
        let t1 = weigh(sample(input, stride, c, at + 1, nn), dark, 0x40);
        let t2 = weigh(sample(input, stride, c, at + 2, nn), dark, 0x20);
        let t3 = weigh(sample(input, stride, c, at + 3, nn), dark, 0x10);
        let t4 = weigh(sample(input, stride, c, at + 4, nn), dark, 0x08);
        let t5 = weigh(sample(input, stride, c, at + 5, nn), dark, 0x04);
        let t6 = weigh(sample(input, stride, c, at + 6, nn), dark, 0x02);
        let t7 = weigh(sample(input, stride, c, at + 7, nn), dark, 0x01);
        let byte = t0 | t1 | t2 | t3 | t4 | t5 | t6 | t7;
        assert(byte == spec_pack_byte(bits, at as int));
        output.push(byte);
        proof {
            assert(spec_pack(bits).subrange(0, j + 1) =~= spec_pack(bits).subrange(
                0,
                j as int,
            ).push(byte));
            assert(output@ =~= old(output)@ + spec_pack(bits).subrange(0, j + 1));
        }
        j += 1;
    }
    assert(spec_pack(bits).subrange(0, count as int) =~= spec_pack(bits));
}

/// The gray bytes of a one-bit bitmap.
pub fn decode_mono(payload: &[u8]) -> (gray: Vec<u8>)
    requires
        8 * payload@.len() <= usize::MAX,
    ensures
        gray@ == spec_decode_mono(payload@),
{
    let n = 8 * payload.len();
    let mut gray: Vec<u8> = Vec::new();
    let mut i: usize = 0;
    while i < n
        invariant
            i <= n,
            n == 8 * payload@.len(),
            gray@ == spec_decode_mono(payload@).subrange(0, i as int),
        decreases n - i,
    {
        let v = spread(bit(payload, i), true);
        gray.push(v);
        assert(gray@ =~= spec_decode_mono(payload@).subrange(0, i + 1));
        i += 1;
    }
    assert(gray@ =~= spec_decode_mono(payload@));
    gray
}

/// The first `n` pairs of two planes: a byte of the first, then a byte of
/// the second.
pub open spec fn spec_pairs(first: Seq<u8>, second: Seq<u8>, n: nat) -> Seq<u8> {
    Seq::new(
        2 * n,
        |j: int|
            if j % 2 == 0 {
                first[j / 2]
            } else {
                second[j / 2]
            },
    )
}

/// The gray-and-alpha bytes of a one-bit bitmap followed by a one-bit mask
/// of the same length: for each pixel the gray byte, then the alpha byte.
pub fn decode_mono_alpha(payload: &[u8]) -> (data: Vec<u8>)
    requires
        payload@.len() % 2 == 0,
        8 * payload@.len() <= usize::MAX,
    ensures
        data@.len() == 8 * payload@.len(),
        plane(data@, 2, 0, (4 * payload@.len()) as nat) == spec_decode_mono(
            payload@.subrange(0, payload@.len() as int / 2),
        ),
        plane(data@, 2, 1, (4 * payload@.len()) as nat) == spec_decode_mask(
            payload@.subrange(payload@.len() as int / 2, payload@.len() as int),
        ),
{
    let half = payload.len() / 2;
    let n = 8 * half;
    let ghost ink = spec_decode_mono(payload@.subrange(0, half as int));
    let ghost mask = spec_decode_mask(payload@.subrange(half as int, payload@.len() as int));
    let mut data: Vec<u8> = Vec::new();
    let mut i: usize = 0;
    assert(data@ =~= spec_pairs(ink, mask, 0));
    while i < n
        invariant
            i <= n,
            n == 8 * half,
            2 * half == payload@.len(),
            8 * payload@.len() <= usize::MAX,
            ink == spec_decode_mono(payload@.subrange(0, half as int)),
            mask == spec_decode_mask(payload@.subrange(half as int, payload@.len() as int)),
            data@ == spec_pairs(ink, mask, i as nat),
        decreases n - i,
    {
        let gray = spread(bit(payload, i), true);
        let alpha = spread(bit(payload, n + i), false);
        proof {
            let front = payload@.subrange(0, half as int);
            let back = payload@.subrange(half as int, payload@.len() as int);
            assert(bit_at(payload@, i as int) == bit_at(front, i as int));
            assert(bit_at(payload@, n + i) == bit_at(back, i as int));
            assert(spec_unpack(front)[i as int] == bit_at(front, i as int));
            assert(spec_unpack(back)[i as int] == bit_at(back, i as int));
            assert(ink[i as int] == gray);
            assert(mask[i as int] == alpha);
        }
        data.push(gray);
        data.push(alpha);
        assert(data@ =~= spec_pairs(ink, mask, (i + 1) as nat));
        i += 1;
    }
    proof {
        let nn = (4 * payload@.len()) as nat;
        assert(plane(data@, 2, 0, nn) =~= ink);
        assert(plane(data@, 2, 1, nn) =~= mask);
    }
    data
}

} // verus!
