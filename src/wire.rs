use vstd::prelude::*;

verus! {

/// The eight big-endian bytes of `v`, most significant first.
pub open spec fn be_bytes(v: u64) -> Seq<u8> {
    seq![
        (v >> 56u64) as u8,
        (v >> 48u64) as u8,
        (v >> 40u64) as u8,
        (v >> 32u64) as u8,
        (v >> 24u64) as u8,
        (v >> 16u64) as u8,
        (v >> 8u64) as u8,
        v as u8,
    ]
}

/// The value of eight big-endian bytes.
pub open spec fn be_value(b: Seq<u8>) -> u64
    recommends
        b.len() == 8,
{
    (b[0] as u64) << 56u64 | (b[1] as u64) << 48u64 | (b[2] as u64) << 40u64 | (b[3] as u64)
        << 32u64 | (b[4] as u64) << 24u64 | (b[5] as u64) << 16u64 | (b[6] as u64) << 8u64
        | (b[7] as u64)
}

/// Encodes `v` as 8 bytes, big-endian: the form a public value takes on the wire.
pub fn u64_to_be_bytes(v: u64) -> (r: [u8; 8])
    ensures
        r@ == be_bytes(v),
{
    let r: [u8; 8] = [
        (v >> 56) as u8,
        (v >> 48) as u8,
        (v >> 40) as u8,
        (v >> 32) as u8,
        (v >> 24) as u8,
        (v >> 16) as u8,
        (v >> 8) as u8,
        v as u8,
    ];
    assert(r@ =~= be_bytes(v));
    r
}

/// Decodes 8 big-endian bytes.
pub fn u64_from_be_bytes(b: [u8; 8]) -> (r: u64)
    ensures
        r == be_value(b@),
{
    (b[0] as u64) << 56 | (b[1] as u64) << 48 | (b[2] as u64) << 40 | (b[3] as u64) << 32
        | (b[4] as u64) << 24 | (b[5] as u64) << 16 | (b[6] as u64) << 8 | (b[7] as u64)
}

/// Codec round trip: decoding the big-endian encoding of any `u64` gives the
/// value back.
pub proof fn lemma_be_round_trip(v: u64)
    ensures
        be_bytes(v).len() == 8,
        be_value(be_bytes(v)) == v,
{
    assert(((v >> 56u64) as u8 as u64) << 56u64 | ((v >> 48u64) as u8 as u64) << 48u64 | ((v
        >> 40u64) as u8 as u64) << 40u64 | ((v >> 32u64) as u8 as u64) << 32u64 | ((v >> 24u64)
        as u8 as u64) << 24u64 | ((v >> 16u64) as u8 as u64) << 16u64 | ((v >> 8u64) as u8
        as u64) << 8u64 | (v as u8 as u64) == v) by (bit_vector);
}

/// A message on the wire: one length byte, then the payload. The length byte
/// holds the payload's length modulo 256, so a payload longer than 255 bytes
/// is sent whole under a truncated length.
pub open spec fn frame(data: Seq<u8>) -> Seq<u8> {
    seq![(data.len() % 256) as u8] + data
}

/// Reads one message from the front of `buf`: the payload and the number of
/// bytes it took, or `None` if `buf` ends before the message does.
pub open spec fn unframe(buf: Seq<u8>) -> Option<(Seq<u8>, nat)> {
    if buf.len() >= 1 && buf.len() >= 1 + buf[0] {
        Some((buf.subrange(1, 1 + buf[0]), (1 + buf[0]) as nat))
    } else {
        None
    }
}

/// Frames a message for the wire: its length as one byte (truncated to eight
/// bits), then its bytes.
pub fn frame_message(data: &[u8]) -> (r: Vec<u8>)
    ensures
        r@ == frame(data@),
{
    let mut out: Vec<u8> = Vec::with_capacity(data.len());
    out.push((data.len() % 256) as u8);
    let mut i: usize = 0;
    while i < data.len()
        invariant
            i <= data@.len(),
            out@ == frame(data@).take(1 + i),
        decreases data@.len() - i,
    {
        out.push(data[i]);
        i = i + 1;
        assert(out@ =~= frame(data@).take(1 + i));
    }
    assert(frame(data@).take(1 + i) =~= frame(data@));
    out
}

/// Reads one framed message from the front of `buf`: the payload and the
/// number of bytes consumed, or `None` when `buf` is shorter than the
/// message its length byte announces.
pub fn unframe_message(buf: &[u8]) -> (r: Option<(Vec<u8>, usize)>)
    ensures
        match unframe(buf@) {
            Some((payload, used)) => r is Some && r->Some_0.0@ == payload && r->Some_0.1 == used,
            None => r is None,
        },
{
    if buf.len() < 1 {
        return None;
    }
    let n = buf[0] as usize;
    if buf.len() < 1 + n {
        return None;
    }
    let mut payload: Vec<u8> = Vec::with_capacity(n);
    let mut i: usize = 0;
    while i < n
        invariant
            n == buf@[0],
            1 + n <= buf@.len(),
            i <= n,
            payload@ == buf@.subrange(1, 1 + i),
        decreases n - i,
    {
        payload.push(buf[1 + i]);
        i = i + 1;
        assert(payload@ =~= buf@.subrange(1, 1 + i));
    }
    Some((payload, 1 + n))
}

/// Message framing round trip: a framed message reads back as its payload
/// when the payload is at most 255 bytes long. A longer payload reads back
/// truncated to its length modulo 256, since that is what the length byte
/// holds.
pub proof fn lemma_frame_round_trip(data: Seq<u8>)
    ensures
        unframe(frame(data)) == Some((data.take((data.len() % 256) as int), data.len() % 256 + 1)),
        data.len() <= 255 ==> unframe(frame(data)) == Some((data, data.len() + 1)),
{
    let f = frame(data);
    assert(f.subrange(1, 1 + f[0]) =~= data.take((data.len() % 256) as int));
    if data.len() <= 255 {
        assert(data.take(data.len() as int) =~= data);
    }
}

} // verus!
