//! Per-chunk checksums, carried on the wire as lowercase hex digests.
use vstd::prelude::*;
use vstd::utf8::{encode_utf8, is_ascii_chars, is_ascii_chars_encode_utf8};

use crate::message::Checksum as ChecksumKind;

verus! {

/// The SHA-256 digest of `b`.
pub uninterp spec fn sha256_of(b: Seq<u8>) -> [u8; 32];

/// The MD5 digest of `b`.
pub uninterp spec fn md5_of(b: Seq<u8>) -> [u8; 16];

/// The lowercase hex digit for `n < 16`.
pub open spec fn hex_digit(n: u8) -> char {
    seq!['0', '1', '2', '3', '4', '5', '6', '7', '8', '9', 'a', 'b', 'c', 'd', 'e', 'f'][n as int]
}

/// Lowercase hex: two digits for each byte, high nibble first.
pub open spec fn lower_hex(b: Seq<u8>) -> Seq<char> {
    Seq::new(
        2 * b.len(),
        |i: int|
            if i % 2 == 0 {
                hex_digit(b[i / 2] / 16)
            } else {
                hex_digit(b[i / 2] % 16)
            },
    )
}

/// Relies on `sha256::digest`, which hex-encodes the 32-byte SHA-256 digest
/// of the bytes in lowercase.
#[verifier::external_body]
fn sha256_digest(bytes: &[u8]) -> (r: String)
    ensures
        r@ == lower_hex(sha256_of(bytes@)@),
{
    sha256::digest(bytes)
}

/// Relies on `md5::compute` and the `LowerHex` format of its digest, which
/// writes each of the 16 digest bytes as two lowercase hex digits.
#[verifier::external_body]
fn md5_digest(bytes: &[u8]) -> (r: String)
    ensures
        r@ == lower_hex(md5_of(bytes@)@),
{
    format!("{:x}", md5::compute(bytes))
}

/// The hex digest that `kind` gives for `b`.
pub open spec fn checksum_hex(kind: ChecksumKind, b: Seq<u8>) -> Seq<char> {
    match kind {
        ChecksumKind::Sha256 => lower_hex(sha256_of(b)@),
        ChecksumKind::Md5 => lower_hex(md5_of(b)@),
    }
}

/// The bytes of a digest on the wire: its characters, which are ASCII.
pub open spec fn digest_bytes(kind: ChecksumKind, b: Seq<u8>) -> Seq<u8> {
    encode_utf8(checksum_hex(kind, b))
}

/// A digest on the wire is never empty, and short enough for any frame.
pub proof fn lemma_digest_bytes_len(kind: ChecksumKind, b: Seq<u8>)
    ensures
        0 < digest_bytes(kind, b).len() <= 64,
        digest_bytes(kind, b).len() == checksum_hex(kind, b).len(),
{
    let h = checksum_hex(kind, b);
    assert forall|i: int| 0 <= i < h.len() implies '\0' <= #[trigger] h[i] <= '\u{7f}' by {
        let d = match kind {
            ChecksumKind::Sha256 => sha256_of(b)@,
            ChecksumKind::Md5 => md5_of(b)@,
        };
        let n = if i % 2 == 0 { d[i / 2] / 16 } else { d[i / 2] % 16 };
        assert(h[i] == hex_digit(n));
    }
    assert(is_ascii_chars(h));
    is_ascii_chars_encode_utf8(h);
}

/// A checksum algorithm: a hex digest of a chunk, and a check against one.
pub trait Checksum {
    /// Which algorithm this is.
    spec fn kind(&self) -> ChecksumKind;

    fn generate(&self, bytes: &[u8]) -> (r: String)
        ensures
            r@ == checksum_hex(self.kind(), bytes@),
    ;

    /// Whether `hash` is the digest of `bytes`.
    fn valdate(&self, bytes: &[u8], hash: &str) -> (r: bool)
        ensures
            r == (checksum_hex(self.kind(), bytes@) == hash@),
    ;

    fn get_type(&self) -> (r: ChecksumKind)
        ensures
            r == self.kind(),
    ;
}

pub struct Sha256;

pub struct Md5;

/// A checksum algorithm chosen at run time.
pub enum ChecksumAlgo {
    Sha256(Sha256),
    Md5(Md5),
}

impl Checksum for Sha256 {
    open spec fn kind(&self) -> ChecksumKind {
        ChecksumKind::Sha256
    }

    fn generate(&self, bytes: &[u8]) -> (r: String) {
        sha256_digest(bytes)
    }

    fn valdate(&self, bytes: &[u8], hash: &str) -> (r: bool) {
        self.generate(bytes) == hash.to_owned()
    }

    fn get_type(&self) -> (r: ChecksumKind) {
        ChecksumKind::Sha256
    }
}

impl Checksum for Md5 {
    open spec fn kind(&self) -> ChecksumKind {
        ChecksumKind::Md5
    }

    fn generate(&self, bytes: &[u8]) -> (r: String) {
        md5_digest(bytes)
    }

    fn valdate(&self, bytes: &[u8], hash: &str) -> (r: bool) {
        self.generate(bytes) == hash.to_owned()
    }

    fn get_type(&self) -> (r: ChecksumKind) {
        ChecksumKind::Md5
    }
}

impl Checksum for ChecksumAlgo {
    open spec fn kind(&self) -> ChecksumKind {
        match self {
            ChecksumAlgo::Sha256(_) => ChecksumKind::Sha256,
            ChecksumAlgo::Md5(_) => ChecksumKind::Md5,
        }
    }

    fn generate(&self, bytes: &[u8]) -> (r: String) {
        match self {
            ChecksumAlgo::Sha256(a) => a.generate(bytes),
            ChecksumAlgo::Md5(a) => a.generate(bytes),
        }
    }

    fn valdate(&self, bytes: &[u8], hash: &str) -> (r: bool) {
        match self {
            ChecksumAlgo::Sha256(a) => a.valdate(bytes, hash),
            ChecksumAlgo::Md5(a) => a.valdate(bytes, hash),
        }
    }

    fn get_type(&self) -> (r: ChecksumKind) {
        match self {
            ChecksumAlgo::Sha256(_) => ChecksumKind::Sha256,
            ChecksumAlgo::Md5(_) => ChecksumKind::Md5,
        }
    }
}

impl ChecksumKind {
    /// The implementation of this algorithm.
    pub fn get_algo(&self) -> (r: ChecksumAlgo)
        ensures
            r.kind() == *self,
    {
        match self {
            ChecksumKind::Sha256 => ChecksumAlgo::Sha256(Sha256),
            ChecksumKind::Md5 => ChecksumAlgo::Md5(Md5),
        }
    }
}

} // verus!
