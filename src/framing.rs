//! Length-prefixed framing: every frame is a 4-byte big-endian length
//! followed by exactly that many payload bytes.
use vstd::prelude::*;

verus! {

/// Number of bytes in a frame header.
pub const HEADER_LEN: usize = 4;

/// The four big-endian bytes of `n`.
pub open spec fn be32(n: u32) -> Seq<u8> {
    seq![
        (n / 0x100_0000) as u8,
        ((n / 0x1_0000) % 0x100) as u8,
        ((n / 0x100) % 0x100) as u8,
        (n % 0x100) as u8,
    ]
}

/// The number whose big-endian bytes are the first four of `b`.
pub open spec fn be32_value(b: Seq<u8>) -> nat
    recommends
        b.len() >= 4,
{
    (b[0] as nat) * 0x100_0000 + (b[1] as nat) * 0x1_0000 + (b[2] as nat) * 0x100 + (b[3] as nat)
}

/// The frame that carries `payload`: its length, big-endian, then the payload.
pub open spec fn frame(payload: Seq<u8>) -> Seq<u8>
    recommends
        payload.len() <= u32::MAX,
{
    be32(payload.len() as u32) + payload
}

/// Splits one frame off the front of `s`: its payload and what follows it,
/// or `None` when `s` does not hold a whole frame.
pub open spec fn split_frame(s: Seq<u8>) -> Option<(Seq<u8>, Seq<u8>)> {
    if s.len() < 4 {
        None
    } else {
        let n = be32_value(s) as int;
        if s.len() < 4 + n {
            None
        } else {
            Some((s.subrange(4, 4 + n), s.subrange(4 + n, s.len() as int)))
        }
    }
}

/// How many more bytes `s` needs before it holds a whole frame (zero when it
/// already does): first the header, then the payload that the header announces.
pub open spec fn frame_need(s: Seq<u8>) -> nat {
    if s.len() < 4 {
        (4 - s.len()) as nat
    } else if s.len() < 4 + be32_value(s) {
        (4 + be32_value(s) - s.len()) as nat
    } else {
        0
    }
}

pub proof fn lemma_be32_value(n: u32)
    ensures
        be32(n).len() == 4,
        be32_value(be32(n)) == n,
{
    assert(n == (n / 0x100_0000) * 0x100_0000 + ((n / 0x1_0000) % 0x100) * 0x1_0000 + ((n / 0x100)
        % 0x100) * 0x100 + n % 0x100) by (bit_vector);
}

/// A frame read back from the front of a byte stream gives the payload that
/// was written, and leaves whatever followed the frame.
pub proof fn lemma_frame_round_trip(payload: Seq<u8>, rest: Seq<u8>)
    requires
        payload.len() <= u32::MAX,
    ensures
        split_frame(frame(payload) + rest) == Some((payload, rest)),
        frame_need(frame(payload) + rest) == 0,
{
    lemma_be32_value(payload.len() as u32);
    let s = frame(payload) + rest;
    assert(s.subrange(0, 4) =~= be32(payload.len() as u32));
    assert(be32_value(s) == be32_value(be32(payload.len() as u32)));
    assert(s.subrange(4, 4 + payload.len() as int) =~= payload);
    assert(s.subrange(4 + payload.len() as int, s.len() as int) =~= rest);
}

/// The four big-endian bytes of `n`.
pub fn encode_len(n: u32) -> (r: [u8; 4])
    ensures
        r@ == be32(n),
{
    let r = [
        (n / 0x100_0000) as u8,
        ((n / 0x1_0000) % 0x100) as u8,
        ((n / 0x100) % 0x100) as u8,
        (n % 0x100) as u8,
    ];
    assert(r@ =~= be32(n));
    r
}

/// The length announced by a frame header.
pub fn decode_len(b: &[u8]) -> (n: u32)
    requires
        b@.len() >= 4,
    ensures
        n == be32_value(b@),
{
    (b[0] as u32) * 0x100_0000 + (b[1] as u32) * 0x1_0000 + (b[2] as u32) * 0x100 + (b[3] as u32)
}

/// Writes one frame: the payload's length, big-endian, then the payload.
pub fn write_frame(payload: &[u8]) -> (r: Vec<u8>)
    requires
        payload@.len() <= u32::MAX,
    ensures
        r@ == frame(payload@),
{
    let mut r: Vec<u8> = Vec::new();
    append_frame(&mut r, payload);
    assert(r@ =~= frame(payload@));
    r
}

/// Appends one frame holding `payload` to `out`.
pub fn append_frame(out: &mut Vec<u8>, payload: &[u8])
    requires
        payload@.len() <= u32::MAX,
    ensures
        final(out)@ == old(out)@ + frame(payload@),
{
    let header = encode_len(payload.len() as u32);
    out.push(header[0]);
    out.push(header[1]);
    out.push(header[2]);
    out.push(header[3]);
    append_bytes(out, payload);
}

/// Appends every byte of `b` to `out`.
pub fn append_bytes(out: &mut Vec<u8>, b: &[u8])
    ensures
        final(out)@ == old(out)@ + b@,
{
    let mut i: usize = 0;
    while i < b.len()
        invariant
            i <= b@.len(),
            out@ == old(out)@ + b@.subrange(0, i as int),
        decreases b@.len() - i,
    {
        out.push(b[i]);
        i = i + 1;
        assert(b@.subrange(0, i as int) =~= b@.subrange(0, i - 1) + seq![b@[i - 1]]);
    }
    assert(b@.subrange(0, i as int) =~= b@);
}

/// Reads one frame from the front of `input`: its payload and the number of
/// bytes the frame took, or `None` when `input` does not hold a whole frame.
pub fn read_frame(input: &[u8]) -> (r: Option<(Vec<u8>, usize)>)
    ensures
        match split_frame(input@) {
            None => r is None,
            Some((payload, rest)) => r matches Some((p, used)) && p@ == payload && used == 4
                + payload.len() && rest == input@.subrange(used as int, input@.len() as int),
        },
{
    if input.len() < HEADER_LEN {
        return None;
    }
    let n = decode_len(input);
    if input.len() - HEADER_LEN < n as usize {
        return None;
    }
    let end = HEADER_LEN + n as usize;
    let mut p: Vec<u8> = Vec::new();
    let mut i: usize = HEADER_LEN;
    while i < end
        invariant
            HEADER_LEN <= i <= end <= input@.len(),
            p@ == input@.subrange(4, i as int),
        decreases end - i,
    {
        p.push(input[i]);
        i = i + 1;
        assert(input@.subrange(4, i as int) =~= input@.subrange(4, i - 1) + seq![input@[i - 1]]);
    }
    Some((p, end))
}

/// How many more bytes `input` needs before it holds a whole frame.
pub fn frame_needed(input: &[u8]) -> (r: u64)
    ensures
        r == frame_need(input@),
{
    if input.len() < HEADER_LEN {
        return (HEADER_LEN - input.len()) as u64;
    }
    let n = decode_len(input) as u64;
    let have = (input.len() - HEADER_LEN) as u64;
    if have < n {
        n - have
    } else {
        0
    }
}

} // verus!
