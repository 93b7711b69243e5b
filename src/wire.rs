//! The field encodings that messages are built from: little-endian integers,
//! one-byte tags, and byte strings or UTF-8 strings behind a 64-bit
//! little-endian length.
use vstd::bytes::*;
use vstd::prelude::*;
use vstd::slice::*;
use vstd::utf8::*;

use crate::framing::append_bytes;

verus! {

pub open spec fn enc_u32(n: u32) -> Seq<u8> {
    spec_u32_to_le_bytes(n)
}

/// A `u32` read from the front of `b`, and what follows it.
pub open spec fn dec_u32(b: Seq<u8>) -> Option<(u32, Seq<u8>)> {
    if b.len() < 4 {
        None
    } else {
        Some((spec_u32_from_le_bytes(b.subrange(0, 4)), b.subrange(4, b.len() as int)))
    }
}

pub open spec fn enc_bytes(v: Seq<u8>) -> Seq<u8> {
    spec_u64_to_le_bytes(v.len() as u64) + v
}

/// A length-prefixed byte string read from the front of `b`, and what follows it.
pub open spec fn dec_bytes(b: Seq<u8>) -> Option<(Seq<u8>, Seq<u8>)> {
    if b.len() < 8 {
        None
    } else {
        let n = spec_u64_from_le_bytes(b.subrange(0, 8)) as int;
        if b.len() - 8 < n {
            None
        } else {
            Some((b.subrange(8, 8 + n), b.subrange(8 + n, b.len() as int)))
        }
    }
}

pub open spec fn enc_str(s: Seq<char>) -> Seq<u8> {
    enc_bytes(encode_utf8(s))
}

/// A length-prefixed UTF-8 string read from the front of `b`, and what follows it.
pub open spec fn dec_str(b: Seq<u8>) -> Option<(Seq<char>, Seq<u8>)> {
    match dec_bytes(b) {
        Some((raw, rest)) => if valid_utf8(raw) {
            Some((decode_utf8(raw), rest))
        } else {
            None
        },
        None => None,
    }
}

/// A string whose encoding fits the 64-bit length prefix.
pub open spec fn str_fits(s: Seq<char>) -> bool {
    encode_utf8(s).len() <= u64::MAX
}

pub proof fn lemma_u32(n: u32, rest: Seq<u8>)
    ensures
        enc_u32(n).len() == 4,
        dec_u32(enc_u32(n) + rest) == Some((n, rest)),
{
    lemma_auto_spec_u32_to_from_le_bytes();
    let b = enc_u32(n) + rest;
    assert(b.subrange(0, 4) =~= enc_u32(n));
    assert(b.subrange(4, b.len() as int) =~= rest);
}

pub proof fn lemma_u32_canonical(b: Seq<u8>)
    ensures
        dec_u32(b) matches Some((n, rest)) ==> b == enc_u32(n) + rest,
{
    lemma_auto_spec_u32_to_from_le_bytes();
    if b.len() >= 4 {
        assert(b =~= b.subrange(0, 4) + b.subrange(4, b.len() as int));
    }
}

pub proof fn lemma_bytes(v: Seq<u8>, rest: Seq<u8>)
    requires
        v.len() <= u64::MAX,
    ensures
        dec_bytes(enc_bytes(v) + rest) == Some((v, rest)),
{
    lemma_auto_spec_u64_to_from_le_bytes();
    let b = enc_bytes(v) + rest;
    assert(b.subrange(0, 8) =~= spec_u64_to_le_bytes(v.len() as u64));
    assert(b.subrange(8, 8 + v.len() as int) =~= v);
    assert(b.subrange(8 + v.len() as int, b.len() as int) =~= rest);
}

pub proof fn lemma_bytes_canonical(b: Seq<u8>)
    ensures
        dec_bytes(b) matches Some((v, rest)) ==> b == enc_bytes(v) + rest,
{
    lemma_auto_spec_u64_to_from_le_bytes();
    if let Some((v, rest)) = dec_bytes(b) {
        let n = spec_u64_from_le_bytes(b.subrange(0, 8));
        assert(v.len() == n);
        assert(spec_u64_to_le_bytes(spec_u64_from_le_bytes(b.subrange(0, 8))) == b.subrange(0, 8));
        assert(b =~= b.subrange(0, 8) + v + rest);
    }
}

pub proof fn lemma_str(s: Seq<char>, rest: Seq<u8>)
    requires
        str_fits(s),
    ensures
        dec_str(enc_str(s) + rest) == Some((s, rest)),
{
    broadcast use encode_utf8_valid_utf8, encode_utf8_decode_utf8;

    lemma_bytes(encode_utf8(s), rest);
}

pub proof fn lemma_str_canonical(b: Seq<u8>)
    ensures
        dec_str(b) matches Some((s, rest)) ==> b == enc_str(s) + rest,
{
    broadcast use decode_utf8_encode_utf8;

    lemma_bytes_canonical(b);
}

/// Appends the little-endian bytes of `n`.
pub fn put_u32(out: &mut Vec<u8>, n: u32)
    ensures
        final(out)@ == old(out)@ + enc_u32(n),
{
    let b = u32_to_le_bytes(n);
    append_bytes(out, b.as_slice());
}

/// Appends `v` behind its 64-bit length.
pub fn put_bytes(out: &mut Vec<u8>, v: &[u8])
    ensures
        final(out)@ == old(out)@ + enc_bytes(v@),
{
    let n = u64_to_le_bytes(v.len() as u64);
    append_bytes(out, n.as_slice());
    append_bytes(out, v);
    assert(final(out)@ =~= old(out)@ + enc_bytes(v@));
}

/// Appends the UTF-8 bytes of `s` behind their 64-bit length.
pub fn put_str(out: &mut Vec<u8>, s: &str)
    ensures
        final(out)@ == old(out)@ + enc_str(s@),
{
    put_bytes(out, s.as_bytes());
}

/// Relies on `String::from_utf8`: it accepts exactly the valid UTF-8 byte
/// sequences, and the string it returns holds the characters they encode.
#[verifier::external_body]
pub(crate) fn utf8_string(bytes: Vec<u8>) -> (r: Option<String>)
    ensures
        r is Some <==> valid_utf8(bytes@),
        r matches Some(s) ==> s@ == decode_utf8(bytes@),
{
    String::from_utf8(bytes).ok()
}

/// Reads a `u32` at `pos`; gives it with the position after it.
pub fn take_u32(b: &[u8], pos: usize) -> (r: Option<(u32, usize)>)
    requires
        pos <= b@.len(),
    ensures
        match dec_u32(b@.subrange(pos as int, b@.len() as int)) {
            None => r is None,
            Some((n, rest)) => r matches Some((m, end)) && m == n && pos <= end <= b@.len() && rest
                == b@.subrange(end as int, b@.len() as int),
        },
{
    if b.len() - pos < 4 {
        return None;
    }
    let field = slice_subrange(b, pos, pos + 4);
    let n = u32_from_le_bytes(field);
    let ghost s = b@.subrange(pos as int, b@.len() as int);
    assert(s.subrange(0, 4) =~= field@);
    assert(s.subrange(4, s.len() as int) =~= b@.subrange(pos + 4, b@.len() as int));
    Some((n, pos + 4))
}

/// Reads a length-prefixed byte string at `pos`; gives it with the position after it.
pub fn take_bytes(b: &[u8], pos: usize) -> (r: Option<(Vec<u8>, usize)>)
    requires
        pos <= b@.len(),
    ensures
        match dec_bytes(b@.subrange(pos as int, b@.len() as int)) {
            None => r is None,
            Some((v, rest)) => r matches Some((w, end)) && w@ == v && pos <= end <= b@.len() && rest
                == b@.subrange(end as int, b@.len() as int),
        },
{
    if b.len() - pos < 8 {
        return None;
    }
    let field = slice_subrange(b, pos, pos + 8);
    let n = u64_from_le_bytes(field);
    let ghost s = b@.subrange(pos as int, b@.len() as int);
    assert(s.subrange(0, 8) =~= field@);
    if ((b.len() - pos - 8) as u64) < n {
        return None;
    }
    let start = pos + 8;
    let end = start + n as usize;
    let v = slice_to_vec(slice_subrange(b, start, end));
    assert(s.subrange(8, 8 + n) =~= v@);
    assert(s.subrange(8 + n, s.len() as int) =~= b@.subrange(end as int, b@.len() as int));
    Some((v, end))
}

/// Reads a length-prefixed UTF-8 string at `pos`; gives it with the position after it.
pub fn take_str(b: &[u8], pos: usize) -> (r: Option<(String, usize)>)
    requires
        pos <= b@.len(),
    ensures
        match dec_str(b@.subrange(pos as int, b@.len() as int)) {
            None => r is None,
            Some((v, rest)) => r matches Some((w, end)) && w@ == v && pos <= end <= b@.len() && rest
                == b@.subrange(end as int, b@.len() as int),
        },
{
    match take_bytes(b, pos) {
        None => None,
        Some((raw, end)) => match utf8_string(raw) {
            None => None,
            Some(s) => Some((s, end)),
        },
    }
}

} // verus!
