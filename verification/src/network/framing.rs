//! Length-prefixed frames: a four-byte length header followed by the payload.
//!
//! Two header layouts are in use on the wire: the request/response protocol
//! between discovery peers writes the length little-endian, the TCP message
//! transport writes it big-endian and refuses payloads above
//! [`MAX_MESSAGE_SIZE`].

use vstd::prelude::*;

verus! {

/// Largest message a transport frame may carry (10 MiB).
pub const MAX_MESSAGE_SIZE: usize = 10485760;

/// The four little-endian bytes of `n`.
pub open spec fn le_bytes(n: int) -> Seq<u8> {
    seq![(n % 256) as u8, ((n / 256) % 256) as u8, ((n / 65536) % 256) as u8, ((n / 16777216) % 256) as u8]
}

/// The four big-endian bytes of `n`.
pub open spec fn be_bytes(n: int) -> Seq<u8> {
    le_bytes(n).reverse()
}

/// The number whose little-endian bytes are `b[0..4]`.
pub open spec fn from_le(b: Seq<u8>) -> int {
    b[0] + 256 * b[1] + 65536 * b[2] + 16777216 * b[3]
}

/// The number whose big-endian bytes are `b[0..4]`.
pub open spec fn from_be(b: Seq<u8>) -> int {
    b[3] + 256 * b[2] + 65536 * b[1] + 16777216 * b[0]
}

/// The frame holding `data` with a little-endian length header; the header
/// keeps the length modulo 2^32, as a cast to `u32` does.
pub open spec fn le_frame(data: Seq<u8>) -> Seq<u8> {
    le_bytes(data.len() as int % 0x1_0000_0000) + data
}

/// The frame holding `data` with a big-endian length header.
pub open spec fn be_frame(data: Seq<u8>) -> Seq<u8> {
    be_bytes(data.len() as int) + data
}

/// Reading a frame from the front of `bytes`: the payload and the number of
/// bytes consumed, or nothing when the header or the payload is cut short.
pub open spec fn parse_le_frame(bytes: Seq<u8>) -> Option<(Seq<u8>, int)> {
    if bytes.len() < 4 {
        None
    } else {
        let n = from_le(bytes);
        if bytes.len() < 4 + n {
            None
        } else {
            Some((bytes.subrange(4, 4 + n), 4 + n))
        }
    }
}

/// Bytes and numbers agree: the header of `n` reads back as `n`.
pub proof fn lemma_le_roundtrip(n: int)
    requires
        0 <= n < 0x1_0000_0000,
    ensures
        from_le(le_bytes(n)) == n,
        from_be(be_bytes(n)) == n,
{
    let b = le_bytes(n);
    assert(b.len() == 4);
    assert(n == n % 256 + 256 * ((n / 256) % 256) + 65536 * ((n / 65536) % 256) + 16777216 * ((n / 16777216) % 256)) by (nonlinear_arith)
        requires 0 <= n < 0x1_0000_0000;
    assert(be_bytes(n)[0] == b[3]);
    assert(be_bytes(n)[1] == b[2]);
    assert(be_bytes(n)[2] == b[1]);
    assert(be_bytes(n)[3] == b[0]);
}

/// Writes `n` as four little-endian bytes.
pub fn u32_to_le_bytes(n: u32) -> (r: [u8; 4])
    ensures
        r@ == le_bytes(n as int),
{
    let r = [(n % 256) as u8, ((n / 256) % 256) as u8, ((n / 65536) % 256) as u8, ((n / 16777216) % 256) as u8];
    assert(r@ =~= le_bytes(n as int));
    r
}

/// Writes `n` as four big-endian bytes.
pub fn u32_to_be_bytes(n: u32) -> (r: [u8; 4])
    ensures
        r@ == be_bytes(n as int),
{
    let r = [((n / 16777216) % 256) as u8, ((n / 65536) % 256) as u8, ((n / 256) % 256) as u8, (n % 256) as u8];
    assert(r@ =~= be_bytes(n as int));
    r
}

/// Reads four little-endian bytes as a number.
pub fn u32_from_le_bytes(b: [u8; 4]) -> (r: u32)
    ensures
        r == from_le(b@),
{
    b[0] as u32 + 256 * (b[1] as u32) + 65536 * (b[2] as u32) + 16777216 * (b[3] as u32)
}

/// Reads four big-endian bytes as a number.
pub fn u32_from_be_bytes(b: [u8; 4]) -> (r: u32)
    ensures
        r == from_be(b@),
{
    b[3] as u32 + 256 * (b[2] as u32) + 65536 * (b[1] as u32) + 16777216 * (b[0] as u32)
}

/// Appends `data` to `out`.
pub(crate) fn push_all(out: &mut Vec<u8>, data: &[u8])
    ensures
        final(out)@ == old(out)@ + data@,
{
    let mut i: usize = 0;
    while i < data.len()
        invariant
            i <= data.len(),
            out@ == old(out)@ + data@.subrange(0, i as int),
        decreases data.len() - i,
    {
        out.push(data[i]);
        i = i + 1;
        assert(out@ =~= old(out)@ + data@.subrange(0, i as int));
    }
    assert(data@.subrange(0, data.len() as int) =~= data@);
}

/// Frames `data` with a little-endian length header.
pub fn encode_le_frame(data: &[u8]) -> (r: Vec<u8>)
    ensures
        r@ == le_frame(data@),
{
    let len64: u64 = data.len() as u64;
    let len: u32 = (len64 % 0x1_0000_0000u64) as u32;
    let header = u32_to_le_bytes(len);
    let mut out: Vec<u8> = Vec::new();
    push_all(&mut out, &header);
    push_all(&mut out, data);
    out
}

/// Reads one little-endian frame from the front of `bytes`: the payload and
/// how many bytes it took, or `None` when the input ends too early.
pub fn decode_le_frame(bytes: &[u8]) -> (r: Option<(Vec<u8>, usize)>)
    ensures
        match r {
            Some((payload, used)) => parse_le_frame(bytes@) == Some((payload@, used as int)),
            None => parse_le_frame(bytes@) is None,
        },
{
    if bytes.len() < 4 {
        return None;
    }
    let header: [u8; 4] = [bytes[0], bytes[1], bytes[2], bytes[3]];
    assert(header@ =~= bytes@.subrange(0, 4));
    let n = u32_from_le_bytes(header) as usize;
    if bytes.len() - 4 < n {
        return None;
    }
    let mut payload: Vec<u8> = Vec::new();
    let mut i: usize = 0;
    while i < n
        invariant
            i <= n,
            4 + n <= bytes.len(),
            payload@ == bytes@.subrange(4, 4 + i as int),
        decreases n - i,
    {
        payload.push(bytes[4 + i]);
        i = i + 1;
        assert(payload@ =~= bytes@.subrange(4, 4 + i as int));
    }
    Some((payload, 4 + n))
}

/// A frame read back gives the payload that was written.
pub proof fn lemma_le_frame_roundtrip(data: Seq<u8>, rest: Seq<u8>)
    requires
        data.len() < 0x1_0000_0000,
    ensures
        parse_le_frame(le_frame(data) + rest) == Some((data, 4 + data.len() as int)),
{
    lemma_le_roundtrip(data.len() as int);
    let f = le_frame(data) + rest;
    assert(f.subrange(0, 4) =~= le_bytes(data.len() as int));
    assert(from_le(f) == from_le(f.subrange(0, 4)));
    assert(f.subrange(4, 4 + data.len() as int) =~= data);
}

/// Frames a serialized message for the TCP transport: the big-endian length
/// followed by the bytes, or `None` when the message is larger than
/// [`MAX_MESSAGE_SIZE`] and is not sent.
pub fn encode_be_frame(bytes: &[u8]) -> (r: Option<Vec<u8>>)
    ensures
        bytes.len() > MAX_MESSAGE_SIZE <==> r is None,
        r matches Some(f) ==> f@ == be_frame(bytes@),
{
    if bytes.len() > MAX_MESSAGE_SIZE {
        return None;
    }
    let header = u32_to_be_bytes(bytes.len() as u32);
    let mut out: Vec<u8> = Vec::new();
    push_all(&mut out, &header);
    push_all(&mut out, bytes);
    Some(out)
}

/// The payload length announced by a big-endian header, or `None` when it is
/// larger than [`MAX_MESSAGE_SIZE`] and the connection must be dropped.
pub fn checked_be_length(header: [u8; 4]) -> (r: Option<usize>)
    ensures
        from_be(header@) > MAX_MESSAGE_SIZE <==> r is None,
        r matches Some(n) ==> n == from_be(header@),
{
    let n = u32_from_be_bytes(header) as usize;
    if n > MAX_MESSAGE_SIZE {
        None
    } else {
        Some(n)
    }
}

/// A transport header announces the length of the message it frames.
pub proof fn lemma_be_frame_header(data: Seq<u8>)
    requires
        data.len() <= MAX_MESSAGE_SIZE,
    ensures
        from_be(be_frame(data).subrange(0, 4)) == data.len(),
        be_frame(data).subrange(4, 4 + data.len() as int) == data,
{
    lemma_le_roundtrip(data.len() as int);
    assert(be_frame(data).subrange(0, 4) =~= be_bytes(data.len() as int));
    assert(be_frame(data).subrange(4, 4 + data.len() as int) =~= data);
}

} // verus!
