//! The run-length coding of 24-bit icons.
//!
//! A stream holds the red, the green and the blue of an image as three
//! planes, one after the other. Each plane is a run of packets: a header
//! below 128 is followed by that many literal bytes and one more, a header
//! from 128 up by one byte that stands for three to 130 equal ones. No
//! packet runs over the end of its plane, and the stream of a 128 by 128
//! image begins with four zero bytes that mean nothing.
//!
//! [`spec_decode`] says what a stream holds and [`spec_encode`] which stream
//! is made for three planes; [`lemma_decode_encode`] shows that the second
//! undoes the first.

use crate::error::IcnsError;
use vstd::arithmetic::div_mod::{lemma_fundamental_div_mod, lemma_fundamental_div_mod_converse};
use vstd::prelude::*;

verus! {

/// One color plane of an interleaved buffer: byte `c` of each of the first
/// `n` pixels, where a pixel takes `stride` bytes.
pub open spec fn plane(data: Seq<u8>, stride: int, c: int, n: nat) -> Seq<u8> {
    Seq::new(n, |i: int| data[stride * i + c])
}

/// The buffer of `n` pixels whose planes are the given ones: pixel by pixel,
/// one byte from each plane in turn.
pub open spec fn interleave(planes: Seq<Seq<u8>>, n: nat) -> Seq<u8> {
    Seq::new(
        n * planes.len(),
        |j: int| planes[j % (planes.len() as int)][j / (planes.len() as int)],
    )
}

/// A buffer is the interleaving of its planes.
pub proof fn lemma_interleave_planes(data: Seq<u8>, planes: Seq<Seq<u8>>, n: nat)
    requires
        planes.len() > 0,
        data.len() == planes.len() * n,
        forall|c: int|
            0 <= c < planes.len() ==> plane(data, planes.len() as int, c, n) == #[trigger] planes[c],
    ensures
        data == interleave(planes, n),
{
    let k = planes.len() as int;
    assert(n * planes.len() == planes.len() * n) by (nonlinear_arith);
    assert forall|j: int| 0 <= j < data.len() implies data[j] == interleave(planes, n)[j] by {
        let i = j / k;
        let c = j % k;
        lemma_fundamental_div_mod(j, k);
        assert(0 <= i < n) by (nonlinear_arith)
            requires
                j == k * i + c,
                0 <= c < k,
                0 <= j < k * n,
        ;
        assert(plane(data, k, c, n)[i] == data[k * i + c]);
        assert(plane(data, k, c, n) == planes[c]);
    }
    assert(data =~= interleave(planes, n));
}

/// Each plane of an interleaving is the plane that went in.
pub proof fn lemma_plane_of_interleave(planes: Seq<Seq<u8>>, n: nat, c: int)
    requires
        0 <= c < planes.len(),
        planes[c].len() == n,
    ensures
        plane(interleave(planes, n), planes.len() as int, c, n) == planes[c],
{
    let k = planes.len() as int;
    let data = interleave(planes, n);
    assert forall|i: int| 0 <= i < n implies plane(data, k, c, n)[i] == planes[c][i] by {
        lemma_fundamental_div_mod_converse(k * i + c, k, i, c);
        assert(0 <= k * i + c < n * k) by (nonlinear_arith)
            requires
                0 <= i < n,
                0 <= c < k,
        ;
    }
    assert(plane(data, k, c, n) =~= planes[c]);
}

/// The three color planes that a run-length stream holds.
pub struct Planes {
    pub r: Seq<u8>,
    pub g: Seq<u8>,
    pub b: Seq<u8>,
}

/// A decoded run of plane bytes put in front of what the rest of the stream
/// decodes to.
pub open spec fn prepend(head: Seq<u8>, rest: Option<(Seq<u8>, int)>) -> Option<(Seq<u8>, int)> {
    match rest {
        Some((tail, end)) => Some((head + tail, end)),
        None => None,
    }
}

/// Reads packets from `input` at `pos` until they have delivered exactly
/// `need` bytes, and gives those bytes with the position after the last
/// packet.
///
/// A packet starts with a header byte `h`. Below 128 it is followed by
/// `h + 1` literal bytes; from 128 up it is followed by one byte that stands
/// `h - 125` times. There is no result where the input ends inside a packet
/// or a packet delivers more than is still needed.
pub open spec fn spec_decode_plane(input: Seq<u8>, pos: int, need: nat) -> Option<(Seq<u8>, int)>
    decreases need,
{
    if need == 0 {
        Some((Seq::empty(), pos))
    } else if pos < 0 || pos >= input.len() {
        None
    } else if input[pos] < 128 {
        let len = input[pos] + 1;
        if len > need || pos + 1 + len > input.len() {
            None
        } else {
            prepend(
                input.subrange(pos + 1, pos + 1 + len),
                spec_decode_plane(input, pos + 1 + len, (need - len) as nat),
            )
        }
    } else {
        let len = input[pos] - 125;
        if len > need || pos + 2 > input.len() {
            None
        } else {
            prepend(
                Seq::new(len as nat, |i: int| input[pos + 1]),
                spec_decode_plane(input, pos + 2, (need - len) as nat),
            )
        }
    }
}

/// Where the planes start: after four zero bytes, where the stream begins
/// with them, and at its first byte otherwise.
pub open spec fn spec_skip(input: Seq<u8>) -> int {
    if input.len() >= 4 && input[0] == 0 && input[1] == 0 && input[2] == 0 && input[3] == 0 {
        4
    } else {
        0
    }
}

/// The three planes of `n` bytes each that a whole stream decodes to: red,
/// green and blue, back to back, with nothing left over.
pub open spec fn spec_decode(input: Seq<u8>, n: nat) -> Option<Planes> {
    match spec_decode_plane(input, spec_skip(input), n) {
        Some((r, after_r)) => match spec_decode_plane(input, after_r, n) {
            Some((g, after_g)) => match spec_decode_plane(input, after_g, n) {
                Some((b, after_b)) => if after_b == input.len() {
                    Some(Planes { r, g, b })
                } else {
                    None
                },
                None => None,
            },
            None => None,
        },
        None => None,
    }
}

/// A decoded plane has as many bytes as were asked for, and ends inside the
/// input.
pub proof fn lemma_decode_plane_len(input: Seq<u8>, pos: int, need: nat)
    requires
        0 <= pos <= input.len(),
    ensures
        spec_decode_plane(input, pos, need) matches Some((bytes, end)) ==> bytes.len() == need
            && pos <= end <= input.len(),
    decreases need,
{
    if need == 0 {
    } else if pos >= input.len() {
    } else if input[pos] < 128 {
        let len = input[pos] + 1;
        if !(len > need || pos + 1 + len > input.len()) {
            lemma_decode_plane_len(input, pos + 1 + len, (need - len) as nat);
        }
    } else {
        let len = input[pos] - 125;
        if !(len > need || pos + 2 > input.len()) {
            lemma_decode_plane_len(input, pos + 2, (need - len) as nat);
        }
    }
}

/// Writing one byte of one plane changes that plane at that pixel and
/// leaves the other planes as they were.
pub proof fn lemma_plane_update(data: Seq<u8>, stride: int, c: int, n: nat, i: int, v: u8)
    requires
        0 <= c < stride,
        0 <= i < n,
        data.len() == stride * n,
    ensures
        0 <= stride * i + c < data.len(),
        plane(data.update(stride * i + c, v), stride, c, n) == plane(data, stride, c, n).update(
            i,
            v,
        ),
        forall|d: int|
            0 <= d < stride && d != c ==> plane(data.update(stride * i + c, v), stride, d, n)
                == plane(data, stride, d, n),
{
    let at = stride * i + c;
    let new = data.update(at, v);
    lemma_cell(stride, n, i, c, i, c);
    assert forall|d: int| 0 <= d < stride implies plane(new, stride, d, n) == (if d == c {
        plane(data, stride, c, n).update(i, v)
    } else {
        plane(data, stride, d, n)
    }) by {
        let want = if d == c {
            plane(data, stride, c, n).update(i, v)
        } else {
            plane(data, stride, d, n)
        };
        assert forall|j: int| 0 <= j < n implies plane(new, stride, d, n)[j] == want[j] by {
            lemma_cell(stride, n, i, c, j, d);
        }
        assert(plane(new, stride, d, n) =~= want);
    }
}

/// Byte `d` of pixel `j` lies inside a buffer of `n` pixels, and is byte `c`
/// of pixel `i` only where `j` is `i` and `d` is `c`.
proof fn lemma_cell(stride: int, n: nat, i: int, c: int, j: int, d: int)
    requires
        0 <= c < stride,
        0 <= d < stride,
        0 <= i < n,
        0 <= j < n,
    ensures
        0 <= stride * j + d < stride * n,
        stride * j + d == stride * i + c <==> j == i && d == c,
{
    assert(0 <= stride * j && stride * j + stride <= stride * n) by (nonlinear_arith)
        requires
            0 <= j < n,
            stride > 0,
    ;
    assert((stride * j + d == stride * i + c) ==> (j == i && d == c)) by (nonlinear_arith)
        requires
            0 <= d < stride,
            0 <= c < stride,
            0 <= i,
            0 <= j,
    ;
}

/// `InvalidRLE`, the one way a run-length stream fails.
fn rle_error() -> (e: IcnsError)
    ensures
        e == IcnsError::InvalidRLE,
{
    IcnsError::InvalidRLE
}

/// Writes `v` as byte `c` of pixel `i`.
pub(crate) fn put(output: &mut Vec<u8>, stride: usize, c: usize, i: usize, v: u8, n: Ghost<nat>)
    requires
        c < stride,
        i < n@,
        old(output)@.len() == stride * n@,
    ensures
        final(output)@.len() == old(output)@.len(),
        plane(final(output)@, stride as int, c as int, n@) == plane(
            old(output)@,
            stride as int,
            c as int,
            n@,
        ).update(i as int, v),
        forall|d: int|
            0 <= d < stride && d != c ==> plane(final(output)@, stride as int, d, n@) == plane(
                old(output)@,
                stride as int,
                d,
                n@,
            ),
{
    let _len = output.len();
    proof {
        lemma_plane_update(old(output)@, stride as int, c as int, n@, i as int, v);
    }
    output.set(stride * i + c, v);
}

/// Putting two runs in front, one after the other, is putting their
/// concatenation in front.
pub proof fn lemma_prepend_twice(a: Seq<u8>, b: Seq<u8>, rest: Option<(Seq<u8>, int)>)
    ensures
        prepend(a, prepend(b, rest)) == prepend(a + b, rest),
{
    if let Some((tail, end)) = rest {
        assert(a + (b + tail) =~= (a + b) + tail);
    }
}

/// Decodes the packets of one plane, from `start` on, into byte `c` of each
/// of the `n` pixels of `output`, and returns where the plane's packets end.
fn decode_plane(
    input: &[u8],
    start: usize,
    output: &mut Vec<u8>,
    stride: usize,
    c: usize,
    n: usize,
) -> (r: Result<usize, IcnsError>)
    requires
        c < stride,
        old(output)@.len() == stride * n,
        start <= input@.len(),
    ensures
        final(output)@.len() == old(output)@.len(),
        forall|d: int|
            0 <= d < stride && d != c ==> plane(final(output)@, stride as int, d, n as nat)
                == plane(old(output)@, stride as int, d, n as nat),
        match r {
            Ok(end) => end <= input@.len() && spec_decode_plane(input@, start as int, n as nat)
                == Some((plane(final(output)@, stride as int, c as int, n as nat), end as int)),
            Err(e) => e == IcnsError::InvalidRLE && spec_decode_plane(
                input@,
                start as int,
                n as nat,
            ) is None,
        },
{
    let total = input.len();
    let mut pos = start;
    let mut pixel: usize = 0;
    let ghost entry = output@;
    let ghost st = stride as int;
    let ghost ch = c as int;
    let ghost nn = n as nat;
    proof {
        assert(plane(output@, st, ch, nn).subrange(0, 0) =~= Seq::<u8>::empty());
        let rest = spec_decode_plane(input@, start as int, nn);
        if let Some((tail, end)) = rest {
            assert(Seq::<u8>::empty() + tail =~= tail);
        }
    }
    while pixel < n
        invariant
            pixel <= n,
            pos <= total,
            total == input@.len(),
            c < stride,
            st == stride as int,
            ch == c as int,
            nn == n as nat,
            output@.len() == stride * n,
            entry == old(output)@,
            output@.len() == entry.len(),
            forall|d: int|
                0 <= d < stride && d != c ==> plane(output@, st, d, nn) == plane(entry, st, d, nn),
            spec_decode_plane(input@, start as int, nn) == prepend(
                plane(output@, st, ch, nn).subrange(0, pixel as int),
                spec_decode_plane(input@, pos as int, (n - pixel) as nat),
            ),
        decreases n - pixel,
    {
        if pos >= total {
            return Err(rle_error());
        }
        let header = input[pos];
        let ghost done = plane(output@, st, ch, nn).subrange(0, pixel as int);
        if header < 128 {
            let len = header as usize + 1;
            if len > n - pixel || len > total - pos - 1 {
                return Err(rle_error());
            }
            let mut k: usize = 0;
            while k < len
                invariant
                    k <= len,
                    pixel + len <= n,
                    pos + 1 + len <= total,
                    total == input@.len(),
                    c < stride,
                    st == stride as int,
                    ch == c as int,
                    nn == n as nat,
                    output@.len() == stride * n,
                    output@.len() == entry.len(),
                    forall|d: int|
                        0 <= d < stride && d != c ==> plane(output@, st, d, nn) == plane(
                            entry,
                            st,
                            d,
                            nn,
                        ),
                    plane(output@, st, ch, nn).subrange(0, pixel as int) == done,
                    plane(output@, st, ch, nn).subrange(pixel as int, pixel + k) == input@.subrange(
                        pos + 1,
                        pos + 1 + k,
                    ),
                decreases len - k,
            {
                let ghost before = plane(output@, st, ch, nn);
                put(output, stride, c, pixel + k, input[pos + 1 + k], Ghost(nn));
                proof {
                    let after = plane(output@, st, ch, nn);
                    assert(after == before.update(pixel + k, input@[pos + 1 + k]));
                    assert(after.subrange(0, pixel as int) =~= before.subrange(0, pixel as int));
                    assert(after.subrange(pixel as int, pixel + k + 1) =~= input@.subrange(
                        pos + 1,
                        pos + 1 + k + 1,
                    )) by {
                        assert forall|j: int| 0 <= j < k + 1 implies #[trigger] after.subrange(
                            pixel as int,
                            pixel + k + 1,
                        )[j] == input@.subrange(pos + 1, pos + 1 + k + 1)[j] by {
                            if j < k {
                                assert(before.subrange(pixel as int, pixel + k)[j] == input@.subrange(
                                    pos + 1,
                                    pos + 1 + k,
                                )[j]);
                            }
                        }
                    }
                }
                k += 1;
            }
            proof {
                let now = plane(output@, st, ch, nn);
                let lit = input@.subrange(pos + 1, pos + 1 + len);
                assert(now.subrange(0, pixel + len) =~= done + lit);
                lemma_prepend_twice(
                    done,
                    lit,
                    spec_decode_plane(input@, pos + 1 + len, (n - pixel - len) as nat),
                );
            }
            pos = pos + 1 + len;
            pixel = pixel + len;
        } else {
            let len = header as usize - 125;
            if len > n - pixel || 2 > total - pos {
                return Err(rle_error());
            }
            let value = input[pos + 1];
            let mut k: usize = 0;
            while k < len
                invariant
                    k <= len,
                    pixel + len <= n,
                    c < stride,
                    st == stride as int,
                    ch == c as int,
                    nn == n as nat,
                    output@.len() == stride * n,
                    output@.len() == entry.len(),
                    forall|d: int|
                        0 <= d < stride && d != c ==> plane(output@, st, d, nn) == plane(
                            entry,
                            st,
                            d,
                            nn,
                        ),
                    plane(output@, st, ch, nn).subrange(0, pixel as int) == done,
                    plane(output@, st, ch, nn).subrange(pixel as int, pixel + k) == Seq::new(
                        k as nat,
                        |i: int| value,
                    ),
                decreases len - k,
            {
                let ghost before = plane(output@, st, ch, nn);
                put(output, stride, c, pixel + k, value, Ghost(nn));
                proof {
                    let after = plane(output@, st, ch, nn);
                    assert(after == before.update(pixel + k, value));
                    assert(after.subrange(0, pixel as int) =~= before.subrange(0, pixel as int));
                    assert(after.subrange(pixel as int, pixel + k + 1) =~= Seq::new(
                        (k + 1) as nat,
                        |i: int| value,
                    )) by {
                        assert forall|j: int| 0 <= j < k + 1 implies #[trigger] after.subrange(
                            pixel as int,
                            pixel + k + 1,
                        )[j] == value by {
                            if j < k {
                                assert(before.subrange(pixel as int, pixel + k)[j] == value);
                            }
                        }
                    }
                }
                k += 1;
            }
            proof {
                let now = plane(output@, st, ch, nn);
                let run = Seq::new(len as nat, |i: int| value);
                assert(now.subrange(0, pixel + len) =~= done + run);
                assert(run =~= Seq::new((header - 125) as nat, |i: int| input@[pos + 1]));
                lemma_prepend_twice(
                    done,
                    run,
                    spec_decode_plane(input@, pos + 2, (n - pixel - len) as nat),
                );
            }
            pos = pos + 2;
            pixel = pixel + len;
        }
    }
    proof {
        let whole = plane(output@, st, ch, nn);
        assert(whole.subrange(0, n as int) =~= whole);
        assert(whole + Seq::<u8>::empty() =~= whole);
    }
    Ok(pos)
}

/// Decodes a run-length stream into the first three bytes of each pixel of
/// `output`, red, green and blue, where a pixel takes `stride` bytes. Any
/// further byte of a pixel is left as it was.
///
/// The stream may begin with four zero bytes, which count for nothing. Each
/// plane's packets must deliver one byte for each of the `num_pixels`
/// pixels, no packet may run over the end of its plane, and the stream
/// must end with the last packet of the blue plane.
pub fn decode_rle(input: &[u8], output: &mut Vec<u8>, stride: usize, num_pixels: usize) -> (r:
    Result<(), IcnsError>)
    requires
        3 <= stride,
        old(output)@.len() == stride * num_pixels,
    ensures
        final(output)@.len() == old(output)@.len(),
        forall|d: int|
            3 <= d < stride ==> plane(final(output)@, stride as int, d, num_pixels as nat)
                == plane(old(output)@, stride as int, d, num_pixels as nat),
        match r {
            Ok(()) => spec_decode(input@, num_pixels as nat) == Some(
                Planes {
                    r: plane(final(output)@, stride as int, 0, num_pixels as nat),
                    g: plane(final(output)@, stride as int, 1, num_pixels as nat),
                    b: plane(final(output)@, stride as int, 2, num_pixels as nat),
                },
            ),
            Err(e) => e == IcnsError::InvalidRLE && spec_decode(input@, num_pixels as nat) is None,
        },
{
    let total = input.len();
    let skip: usize = if total >= 4 && input[0] == 0 && input[1] == 0 && input[2] == 0 && input[3]
        == 0 {
        4
    } else {
        0
    };
    let after_r = match decode_plane(input, skip, output, stride, 0, num_pixels) {
        Ok(end) => end,
        Err(e) => {
            return Err(e);
        },
    };
    let after_g = match decode_plane(input, after_r, output, stride, 1, num_pixels) {
        Ok(end) => end,
        Err(e) => {
            return Err(e);
        },
    };
    let after_b = match decode_plane(input, after_g, output, stride, 2, num_pixels) {
        Ok(end) => end,
        Err(e) => {
            return Err(e);
        },
    };
    if after_b != total {
        return Err(rle_error());
    }
    Ok(())
}

/// Grows a run that starts at `start` and has `len` equal bytes so far, for
/// as long as the next byte is equal too, up to 130 bytes.
pub open spec fn spec_run_from(s: Seq<u8>, start: int, len: int) -> int
    decreases s.len() - start - len,
{
    if 0 <= start && 0 < len < 130 && start + len < s.len() && s[start + len] == s[start] {
        spec_run_from(s, start, len + 1)
    } else {
        len
    }
}

/// The length of the longest run of equal bytes that starts at `start`, up
/// to 130.
pub open spec fn spec_run_length(s: Seq<u8>, start: int) -> int {
    spec_run_from(s, start, 1)
}

/// Literal packets for `bytes`: 128 bytes to a packet, the last one shorter,
/// each behind a header of its length less one.
pub open spec fn spec_literals(bytes: Seq<u8>) -> Seq<u8>
    decreases bytes.len(),
{
    if bytes.len() == 0 {
        Seq::empty()
    } else {
        let len = if bytes.len() < 128 {
            bytes.len() as int
        } else {
            128
        };
        seq![(len - 1) as u8] + bytes.subrange(0, len) + spec_literals(
            bytes.subrange(len, bytes.len() as int),
        )
    }
}

/// The packets for a plane from `pixel` on, where the bytes from
/// `literal_start` up to `pixel` are waiting to go out as literals.
///
/// A run of three or more equal bytes goes out as one compressed packet,
/// after the literals that were waiting; anything shorter joins them.
pub open spec fn spec_encode_from(s: Seq<u8>, literal_start: int, pixel: int) -> Seq<u8>
    decreases s.len() - pixel,
{
    if pixel < 0 || pixel >= s.len() {
        spec_literals(s.subrange(literal_start, s.len() as int))
    } else {
        let run = spec_run_length(s, pixel);
        proof {
            lemma_run_from_bounds(s, pixel, 1);
        }
        if run >= 3 {
            spec_literals(s.subrange(literal_start, pixel)) + seq![(run + 125) as u8, s[pixel]]
                + spec_encode_from(s, pixel + run, pixel + run)
        } else {
            spec_encode_from(s, literal_start, pixel + run)
        }
    }
}

/// The packets for one plane.
pub open spec fn spec_encode_plane(s: Seq<u8>) -> Seq<u8> {
    spec_encode_from(s, 0, 0)
}

/// The four zero bytes that go in front of the planes of a 128 by 128
/// raster, and of no other.
pub open spec fn spec_prefix(n: nat) -> Seq<u8> {
    if n == 128 * 128 {
        seq![0u8, 0u8, 0u8, 0u8]
    } else {
        Seq::empty()
    }
}

/// The run-length stream for three planes: the prefix, then the packets for
/// red, for green and for blue.
pub open spec fn spec_encode(p: Planes) -> Seq<u8> {
    spec_prefix(p.r.len()) + spec_encode_plane(p.r) + spec_encode_plane(p.g) + spec_encode_plane(
        p.b,
    )
}

/// A run is at least as long as what it grew from, at most 130 bytes, and
/// stays inside the plane.
pub proof fn lemma_run_from_bounds(s: Seq<u8>, start: int, len: int)
    requires
        0 <= start,
        1 <= len <= 130,
        start + len <= s.len(),
    ensures
        len <= spec_run_from(s, start, len) <= 130,
        start + spec_run_from(s, start, len) <= s.len(),
    decreases s.len() - start - len,
{
    if len < 130 && start + len < s.len() && s[start + len] == s[start] {
        lemma_run_from_bounds(s, start, len + 1);
    }
}

/// Byte `c` of pixel `i` of an interleaved buffer.
pub(crate) fn sample(input: &[u8], stride: usize, c: usize, i: usize, n: Ghost<nat>) -> (v: u8)
    requires
        c < stride,
        i < n@,
        input@.len() == stride * n@,
    ensures
        v == plane(input@, stride as int, c as int, n@)[i as int],
{
    let _len = input.len();
    proof {
        lemma_cell(stride as int, n@, i as int, c as int, i as int, c as int);
    }
    input[stride * i + c]
}

/// Appends literal packets for the bytes of plane `c` from pixel `from` up to
/// pixel `to`.
fn flush_literals(
    output: &mut Vec<u8>,
    input: &[u8],
    stride: usize,
    c: usize,
    from: usize,
    to: usize,
    n: Ghost<nat>,
)
    requires
        c < stride,
        from <= to <= n@,
        input@.len() == stride * n@,
    ensures
        final(output)@ == old(output)@ + spec_literals(
            plane(input@, stride as int, c as int, n@).subrange(from as int, to as int),
        ),
{
    let ghost s = plane(input@, stride as int, c as int, n@);
    let mut start = from;
    proof {
        assert(output@ + spec_literals(s.subrange(start as int, to as int)) == old(output)@
            + spec_literals(s.subrange(from as int, to as int)));
    }
    while start < to
        invariant
            c < stride,
            from <= start <= to <= n@,
            input@.len() == stride * n@,
            s == plane(input@, stride as int, c as int, n@),
            output@ + spec_literals(s.subrange(start as int, to as int)) == old(output)@
                + spec_literals(s.subrange(from as int, to as int)),
        decreases to - start,
    {
        let len: usize = if to - start < 128 {
            to - start
        } else {
            128
        };
        let ghost before = output@;
        output.push((len - 1) as u8);
        let mut i: usize = 0;
        while i < len
            invariant
                c < stride,
                i <= len,
                start + len <= to <= n@,
                input@.len() == stride * n@,
                s == plane(input@, stride as int, c as int, n@),
                output@ == before + seq![(len - 1) as u8] + s.subrange(start as int, start + i),
            decreases len - i,
        {
            let v = sample(input, stride, c, start + i, n);
            output.push(v);
            proof {
                assert(s.subrange(start as int, start + i + 1) =~= s.subrange(
                    start as int,
                    start + i,
                ).push(v));
                assert(output@ =~= before + seq![(len - 1) as u8] + s.subrange(
                    start as int,
                    start + i + 1,
                ));
            }
            i += 1;
        }
        proof {
            let rest = s.subrange(start as int, to as int);
            assert(rest.subrange(0, len as int) =~= s.subrange(start as int, start + len));
            assert(rest.subrange(len as int, rest.len() as int) =~= s.subrange(
                start + len,
                to as int,
            ));
            let tail = spec_literals(s.subrange(start + len, to as int));
            assert(spec_literals(rest) == seq![(len - 1) as u8] + s.subrange(
                start as int,
                start + len,
            ) + tail);
            assert(output@ + tail =~= before + spec_literals(rest));
        }
        start = start + len;
    }
    proof {
        assert(s.subrange(to as int, to as int) =~= Seq::<u8>::empty());
        assert(output@ + Seq::<u8>::empty() =~= output@);
    }
}

/// Appends the packets for plane `c` of an interleaved buffer of `n`
/// pixels.
fn encode_plane(output: &mut Vec<u8>, input: &[u8], stride: usize, c: usize, n: usize)
    requires
        c < stride,
        input@.len() == stride * n,
    ensures
        final(output)@ == old(output)@ + spec_encode_plane(
            plane(input@, stride as int, c as int, n as nat),
        ),
{
    let ghost s = plane(input@, stride as int, c as int, n as nat);
    let ghost nn = n as nat;
    let mut pixel: usize = 0;
    let mut literal_start: usize = 0;
    while pixel < n
        invariant
            c < stride,
            literal_start <= pixel <= n,
            nn == n as nat,
            input@.len() == stride * n,
            s == plane(input@, stride as int, c as int, nn),
            output@ + spec_encode_from(s, literal_start as int, pixel as int) == old(output)@
                + spec_encode_plane(s),
        decreases n - pixel,
    {
        let value = sample(input, stride, c, pixel, Ghost(nn));
        let mut run: usize = 1;
        while pixel + run < n && run < 130 && sample(input, stride, c, pixel + run, Ghost(nn))
            == value
            invariant
                c < stride,
                1 <= run <= 130,
                pixel + run <= n,
                nn == n as nat,
                input@.len() == stride * n,
                s == plane(input@, stride as int, c as int, nn),
                value == s[pixel as int],
                spec_run_from(s, pixel as int, run as int) == spec_run_length(s, pixel as int),
            decreases n - pixel - run,
        {
            run += 1;
        }
        proof {
            lemma_run_from_bounds(s, pixel as int, 1);
        }
        if run >= 3 {
            let ghost before = output@;
            flush_literals(output, input, stride, c, literal_start, pixel, Ghost(nn));
            output.push((run + 125) as u8);
            output.push(value);
            proof {
                let lits = spec_literals(s.subrange(literal_start as int, pixel as int));
                let packet = seq![(run + 125) as u8, value];
                let rest = spec_encode_from(s, pixel + run, pixel + run);
                assert(output@ =~= before + lits + packet);
                assert(output@ + rest =~= before + (lits + packet + rest));
            }
            pixel = pixel + run;
            literal_start = pixel;
        } else {
            pixel = pixel + run;
        }
    }
    let ghost before = output@;
    flush_literals(output, input, stride, c, literal_start, pixel, Ghost(nn));
}

/// Encodes the first three bytes of each pixel of `input`, red, green and
/// blue, as a run-length stream, where a pixel takes `num_input_channels`
/// bytes. Any further byte of a pixel is not encoded.
pub fn encode_rle(input: &[u8], num_input_channels: usize, num_pixels: usize) -> (output: Vec<u8>)
    requires
        3 <= num_input_channels,
        input@.len() == num_input_channels * num_pixels,
    ensures
        output@ == spec_encode(
            Planes {
                r: plane(input@, num_input_channels as int, 0, num_pixels as nat),
                g: plane(input@, num_input_channels as int, 1, num_pixels as nat),
                b: plane(input@, num_input_channels as int, 2, num_pixels as nat),
            },
        ),
{
    let mut output: Vec<u8> = Vec::new();
    if num_pixels == 128 * 128 {
        output.push(0);
        output.push(0);
        output.push(0);
        output.push(0);
    }
    assert(output@ =~= spec_prefix(num_pixels as nat));
    encode_plane(&mut output, input, num_input_channels, 0, num_pixels);
    encode_plane(&mut output, input, num_input_channels, 1, num_pixels);
    encode_plane(&mut output, input, num_input_channels, 2, num_pixels);
    output
}

/// `input` holds the bytes `x` from position `pos` on.
pub open spec fn holds_at(input: Seq<u8>, pos: int, x: Seq<u8>) -> bool {
    0 <= pos && pos + x.len() <= input.len() && input.subrange(pos, pos + x.len()) == x
}

/// Where `input` holds `a + b`, it holds `a` there and `b` right after.
pub proof fn lemma_holds_at_split(input: Seq<u8>, pos: int, a: Seq<u8>, b: Seq<u8>)
    requires
        holds_at(input, pos, a + b),
    ensures
        holds_at(input, pos, a),
        holds_at(input, pos + a.len(), b),
{
    let whole = input.subrange(pos, pos + (a + b).len());
    assert(input.subrange(pos, pos + a.len()) =~= whole.subrange(0, a.len() as int));
    assert(whole.subrange(0, a.len() as int) =~= a);
    assert(input.subrange(pos + a.len(), pos + a.len() + b.len()) =~= whole.subrange(
        a.len() as int,
        (a + b).len() as int,
    ));
    assert(whole.subrange(a.len() as int, (a + b).len() as int) =~= b);
}

/// Every byte of a run equals its first.
pub proof fn lemma_run_is_constant(s: Seq<u8>, start: int, len: int)
    requires
        0 <= start,
        1 <= len <= 130,
        start + len <= s.len(),
        forall|j: int| start <= j < start + len ==> s[j] == s[start],
    ensures
        forall|j: int| start <= j < start + spec_run_from(s, start, len) ==> s[j] == s[start],
    decreases s.len() - start - len,
{
    if len < 130 && start + len < s.len() && s[start + len] == s[start] {
        lemma_run_is_constant(s, start, len + 1);
    }
}

/// Literal packets decode to the bytes they were made from.
pub proof fn lemma_decode_literals(input: Seq<u8>, pos: int, lit: Seq<u8>, need: nat)
    requires
        holds_at(input, pos, spec_literals(lit)),
        lit.len() <= need,
    ensures
        spec_decode_plane(input, pos, need) == prepend(
            lit,
            spec_decode_plane(
                input,
                pos + spec_literals(lit).len(),
                (need - lit.len()) as nat,
            ),
        ),
    decreases lit.len(),
{
    if lit.len() == 0 {
        if let Some((tail, end)) = spec_decode_plane(input, pos, need) {
            assert(lit + tail =~= tail);
        }
    } else {
        let len = if lit.len() < 128 {
            lit.len() as int
        } else {
            128
        };
        let head = lit.subrange(0, len);
        let rest = lit.subrange(len, lit.len() as int);
        let header = seq![(len - 1) as u8];
        assert(spec_literals(lit) == header + head + spec_literals(rest));
        lemma_holds_at_split(input, pos, header + head, spec_literals(rest));
        lemma_holds_at_split(input, pos, header, head);
        assert(input[pos] == input.subrange(pos, pos + 1)[0]);
        assert(input[pos] == len - 1);
        assert(input.subrange(pos + 1, pos + 1 + len) == head);
        lemma_decode_literals(input, pos + 1 + len, rest, (need - len) as nat);
        let after = spec_decode_plane(
            input,
            pos + 1 + len + spec_literals(rest).len(),
            (need - len - rest.len()) as nat,
        );
        lemma_prepend_twice(head, rest, after);
        assert(head + rest =~= lit);
    }
}

/// The packets made for a plane decode to that plane: from where they
/// start, the bytes still waiting as literals and all that follow come
/// back, and decoding ends where the packets end.
pub proof fn lemma_decode_encoded(
    input: Seq<u8>,
    pos: int,
    s: Seq<u8>,
    literal_start: int,
    pixel: int,
)
    requires
        0 <= literal_start <= pixel <= s.len(),
        holds_at(input, pos, spec_encode_from(s, literal_start, pixel)),
    ensures
        spec_decode_plane(input, pos, (s.len() - literal_start) as nat) == Some(
            (
                s.subrange(literal_start, s.len() as int),
                pos + spec_encode_from(s, literal_start, pixel).len(),
            ),
        ),
    decreases s.len() - pixel,
{
    let n = s.len() as int;
    let need = (n - literal_start) as nat;
    if pixel >= n {
        let lit = s.subrange(literal_start, n);
        lemma_decode_literals(input, pos, lit, need);
        assert(lit + Seq::<u8>::empty() =~= lit);
    } else {
        let run = spec_run_length(s, pixel);
        lemma_run_from_bounds(s, pixel, 1);
        if run >= 3 {
            let lit = s.subrange(literal_start, pixel);
            let lits = spec_literals(lit);
            let packet = seq![(run + 125) as u8, s[pixel]];
            let rest = spec_encode_from(s, pixel + run, pixel + run);
            lemma_holds_at_split(input, pos, lits + packet, rest);
            lemma_holds_at_split(input, pos, lits, packet);
            lemma_decode_literals(input, pos, lit, need);
            let at = pos + lits.len();
            assert(input[at] == input.subrange(at, at + 2)[0]);
            assert(input[at + 1] == input.subrange(at, at + 2)[1]);
            assert(input[at] == run + 125);
            assert(input[at + 1] == s[pixel]);
            lemma_decode_encoded(input, at + 2, s, pixel + run, pixel + run);
            let tail = s.subrange(pixel + run, n);
            let fill = Seq::new(run as nat, |i: int| input[at + 1]);
            assert(fill =~= s.subrange(pixel, pixel + run)) by {
                lemma_run_is_constant(s, pixel, 1);
            }
            let end = at + 2 + rest.len();
            assert(spec_decode_plane(input, at, (n - pixel) as nat) == prepend(
                fill,
                Some((tail, end)),
            ));
            assert(lit + (fill + tail) =~= s.subrange(literal_start, n));
        } else {
            lemma_decode_encoded(input, pos, s, literal_start, pixel + run);
        }
    }
}

/// The packets for a plane of two bytes or more do not begin like the four
/// zero bytes that may stand in front of a stream: their first byte, or
/// else their third, is not zero.
pub proof fn lemma_encoded_start(s: Seq<u8>, pixel: int)
    requires
        s.len() >= 2,
        0 <= pixel <= s.len(),
    ensures
        spec_encode_from(s, 0, pixel).len() >= 1,
        spec_encode_from(s, 0, pixel)[0] != 0 || (spec_encode_from(s, 0, pixel).len() >= 3
            && spec_encode_from(s, 0, pixel)[2] != 0),
    decreases s.len() - pixel,
{
    let n = s.len() as int;
    if pixel >= n {
        let lit = s.subrange(0, n);
        assert(spec_literals(lit)[0] != 0);
    } else {
        let run = spec_run_length(s, pixel);
        lemma_run_from_bounds(s, pixel, 1);
        if run >= 3 {
            let lit = s.subrange(0, pixel);
            let lits = spec_literals(lit);
            let packet = seq![(run + 125) as u8, s[pixel]];
            let rest = spec_encode_from(s, pixel + run, pixel + run);
            let x = lits + packet + rest;
            if pixel == 0 {
                assert(lits.len() == 0);
                assert(x[0] == packet[0]);
            } else if pixel == 1 {
                let tail = lit.subrange(1, 1);
                assert(tail.len() == 0);
                assert(spec_literals(tail).len() == 0);
                assert(lits =~= seq![0u8] + lit.subrange(0, 1) + spec_literals(tail));
                assert(lits.len() == 2);
                assert(x[2] == packet[0]);
            } else {
                assert(lits[0] != 0);
                assert(x[0] == lits[0]);
            }
        } else {
            lemma_encoded_start(s, pixel + run);
        }
    }
}

/// The stream made from three planes of equal length decodes to those
/// planes, for every length but one.
///
/// With a single pixel the packets of the red and the green plane can come
/// out as four zero bytes, which a decoder takes for the optional prefix.
pub proof fn lemma_decode_encode(p: Planes)
    requires
        p.r.len() == p.g.len(),
        p.r.len() == p.b.len(),
        p.r.len() != 1,
    ensures
        spec_decode(spec_encode(p), p.r.len()) == Some(p),
{
    let n = p.r.len();
    let pre = spec_prefix(n);
    let xr = spec_encode_plane(p.r);
    let xg = spec_encode_plane(p.g);
    let xb = spec_encode_plane(p.b);
    let e = spec_encode(p);
    assert(e == pre + xr + xg + xb);
    if n == 128 * 128 {
        assert(e[0] == 0 && e[1] == 0 && e[2] == 0 && e[3] == 0);
    } else if n >= 2 {
        lemma_encoded_start(p.r, 0);
        assert(pre + xr =~= xr);
        assert(e[0] == xr[0]);
        if xr.len() >= 3 {
            assert(e[2] == xr[2]);
        }
    } else {
        assert(p.r.subrange(0, 0).len() == 0);
        assert(p.g.subrange(0, 0).len() == 0);
        assert(p.b.subrange(0, 0).len() == 0);
        assert(e.len() == 0);
    }
    let start = spec_skip(e);
    assert(start == pre.len());
    assert(e.subrange(0, e.len() as int) =~= e);
    lemma_holds_at_split(e, 0, pre + xr + xg, xb);
    lemma_holds_at_split(e, 0, pre + xr, xg);
    lemma_holds_at_split(e, 0, pre, xr);
    lemma_decode_encoded(e, start, p.r, 0, 0);
    lemma_decode_encoded(e, start + xr.len(), p.g, 0, 0);
    lemma_decode_encoded(e, start + xr.len() + xg.len(), p.b, 0, 0);
    assert(p.r.subrange(0, n as int) =~= p.r);
    assert(p.g.subrange(0, n as int) =~= p.g);
    assert(p.b.subrange(0, n as int) =~= p.b);
}

/// The stream for a raster of 128 by 128 pixels begins with four zero
/// bytes.
pub proof fn lemma_encode_prefix(p: Planes)
    requires
        p.r.len() == 128 * 128,
    ensures
        spec_encode(p).len() >= 4,
        spec_encode(p)[0] == 0,
        spec_encode(p)[1] == 0,
        spec_encode(p)[2] == 0,
        spec_encode(p)[3] == 0,
{
}

/// What a plane decodes to, with the position moved on by `by`.
pub open spec fn moved(result: Option<(Seq<u8>, int)>, by: int) -> Option<(Seq<u8>, int)> {
    match result {
        Some((bytes, end)) => Some((bytes, end + by)),
        None => None,
    }
}

/// Bytes in front of a stream move its packets on and change nothing else.
pub proof fn lemma_decode_plane_moved(front: Seq<u8>, input: Seq<u8>, pos: int, need: nat)
    requires
        0 <= pos,
    ensures
        spec_decode_plane(front + input, front.len() + pos, need) == moved(
            spec_decode_plane(input, pos, need),
            front.len() as int,
        ),
    decreases need,
{
    let k = front.len() as int;
    let whole = front + input;
    if need == 0 {
    } else if pos >= input.len() {
    } else {
        assert(whole[k + pos] == input[pos]);
        if input[pos] < 128 {
            let len = input[pos] + 1;
            if !(len > need || pos + 1 + len > input.len()) {
                assert(whole.subrange(k + pos + 1, k + pos + 1 + len) =~= input.subrange(
                    pos + 1,
                    pos + 1 + len,
                ));
                lemma_decode_plane_moved(front, input, pos + 1 + len, (need - len) as nat);
            }
        } else {
            let len = input[pos] - 125;
            if !(len > need || pos + 2 > input.len()) {
                assert(whole[k + pos + 1] == input[pos + 1]);
                assert(Seq::new(len as nat, |i: int| whole[k + pos + 1]) =~= Seq::new(
                    len as nat,
                    |i: int| input[pos + 1],
                ));
                lemma_decode_plane_moved(front, input, pos + 2, (need - len) as nat);
            }
        }
    }
}

/// Four zero bytes in front of a stream that does not begin with them
/// change nothing in what it decodes to.
pub proof fn lemma_decode_with_prefix(input: Seq<u8>, n: nat)
    requires
        spec_skip(input) == 0,
    ensures
        spec_decode(seq![0u8, 0u8, 0u8, 0u8] + input, n) == spec_decode(input, n),
{
    let front = seq![0u8, 0u8, 0u8, 0u8];
    let whole = front + input;
    assert(spec_skip(whole) == 4);
    lemma_decode_plane_moved(front, input, 0, n);
    lemma_decode_plane_len(input, 0, n);
    if let Some((r, after_r)) = spec_decode_plane(input, 0, n) {
        lemma_decode_plane_moved(front, input, after_r, n);
        lemma_decode_plane_len(input, after_r, n);
        if let Some((g, after_g)) = spec_decode_plane(input, after_r, n) {
            lemma_decode_plane_moved(front, input, after_g, n);
        }
    }
}

} // verus!
