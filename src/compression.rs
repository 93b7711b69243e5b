//! Per-chunk compression through flate2's zlib and gzip streams.
use std::io::{Read, Write};
use vstd::prelude::*;

use crate::error::Error;
use crate::message::Compression as CompressionKind;

verus! {

/// The zlib stream that flate2 writes for `b` at the default level, or
/// `None` when its encoder reports an error for these bytes.
pub uninterp spec fn zlib_compressed(b: Seq<u8>) -> Option<Seq<u8>>;

/// The bytes that flate2 reads back from the zlib stream `b`, or `None`
/// when its decoder reports an error for these bytes.
pub uninterp spec fn zlib_decompressed(b: Seq<u8>) -> Option<Seq<u8>>;

/// The gzip stream that flate2 writes for `b` at the default level, or
/// `None` when its encoder reports an error for these bytes.
pub uninterp spec fn gzip_compressed(b: Seq<u8>) -> Option<Seq<u8>>;

/// The bytes that flate2 reads back from the gzip stream `b`, or `None`
/// when its decoder reports an error for these bytes.
pub uninterp spec fn gzip_decompressed(b: Seq<u8>) -> Option<Seq<u8>>;

/// Relies on `flate2::write::ZlibEncoder` over a `Vec` at the default level:
/// the finished stream, or the error it reports. Writing into a `Vec` fails
/// nowhere but in the encoder, so the outcome depends on the bytes alone.
#[verifier::external_body]
fn zlib_encode(bytes: &[u8]) -> (r: core::result::Result<Vec<u8>, std::io::Error>)
    ensures
        r is Ok <==> zlib_compressed(bytes@) is Some,
        r matches Ok(v) ==> zlib_compressed(bytes@) == Some(v@),
{
    let mut e = flate2::write::ZlibEncoder::new(Vec::new(), flate2::Compression::default());
    e.write_all(bytes)?;
    e.finish()
}

/// Relies on `flate2::read::ZlibDecoder` over a byte slice: everything it
/// reads from the stream, or the error it reports. A slice never fails to
/// read, so the outcome depends on the bytes alone.
#[verifier::external_body]
fn zlib_decode(bytes: &[u8]) -> (r: core::result::Result<Vec<u8>, std::io::Error>)
    ensures
        r is Ok <==> zlib_decompressed(bytes@) is Some,
        r matches Ok(v) ==> zlib_decompressed(bytes@) == Some(v@),
{
    let mut out = Vec::new();
    flate2::read::ZlibDecoder::new(bytes).read_to_end(&mut out)?;
    Ok(out)
}

/// Relies on `flate2::write::GzEncoder` over a `Vec` at the default level:
/// the finished stream, or the error it reports. Writing into a `Vec` fails
/// nowhere but in the encoder, so the outcome depends on the bytes alone.
#[verifier::external_body]
fn gzip_encode(bytes: &[u8]) -> (r: core::result::Result<Vec<u8>, std::io::Error>)
    ensures
        r is Ok <==> gzip_compressed(bytes@) is Some,
        r matches Ok(v) ==> gzip_compressed(bytes@) == Some(v@),
{
    let mut e = flate2::write::GzEncoder::new(Vec::new(), flate2::Compression::default());
    e.write_all(bytes)?;
    e.finish()
}

/// Relies on `flate2::read::GzDecoder` over a byte slice: everything it
/// reads from the stream, or the error it reports. A slice never fails to
/// read, so the outcome depends on the bytes alone.
#[verifier::external_body]
fn gzip_decode(bytes: &[u8]) -> (r: core::result::Result<Vec<u8>, std::io::Error>)
    ensures
        r is Ok <==> gzip_decompressed(bytes@) is Some,
        r matches Ok(v) ==> gzip_decompressed(bytes@) == Some(v@),
{
    let mut out = Vec::new();
    flate2::read::GzDecoder::new(bytes).read_to_end(&mut out)?;
    Ok(out)
}

/// What `kind` compresses `b` to.
pub open spec fn compressed(kind: CompressionKind, b: Seq<u8>) -> Option<Seq<u8>> {
    match kind {
        CompressionKind::Zlib => zlib_compressed(b),
        CompressionKind::GZip => gzip_compressed(b),
    }
}

/// What `kind` decompresses `b` to.
pub open spec fn decompressed(kind: CompressionKind, b: Seq<u8>) -> Option<Seq<u8>> {
    match kind {
        CompressionKind::Zlib => zlib_decompressed(b),
        CompressionKind::GZip => gzip_decompressed(b),
    }
}

/// The outcome of a codec call, with its error as one of this library's.
fn io_result(r: core::result::Result<Vec<u8>, std::io::Error>) -> (out: core::result::Result<
    Vec<u8>,
    Error,
>)
    ensures
        r matches Ok(v) ==> out == Ok::<Vec<u8>, Error>(v),
        r matches Err(e) ==> out matches Err(Error::IO(f)) && f == e,
{
    match r {
        Ok(v) => Ok(v),
        Err(e) => Err(Error::IO(e)),
    }
}

/// A compression algorithm. Each call succeeds exactly when the codec
/// accepts the bytes, and then gives the codec's output; otherwise it fails
/// with the codec's I/O error.
pub trait Compression {
    /// Which algorithm this is.
    spec fn kind(&self) -> CompressionKind;

    fn compress(&self, bytes: &[u8]) -> (r: core::result::Result<Vec<u8>, Error>)
        ensures
            r is Ok <==> compressed(self.kind(), bytes@) is Some,
            r matches Ok(v) ==> compressed(self.kind(), bytes@) == Some(v@),
            r matches Err(e) ==> e is IO,
    ;

    fn decompress(&self, bytes: &[u8]) -> (r: core::result::Result<Vec<u8>, Error>)
        ensures
            r is Ok <==> decompressed(self.kind(), bytes@) is Some,
            r matches Ok(v) ==> decompressed(self.kind(), bytes@) == Some(v@),
            r matches Err(e) ==> e is IO,
    ;

    fn get_type(&self) -> (r: CompressionKind)
        ensures
            r == self.kind(),
    ;
}

pub struct Zlib;

pub struct GZip;

/// A compression algorithm chosen at run time.
pub enum CompressionAlgo {
    Zlib(Zlib),
    GZip(GZip),
}

impl Compression for Zlib {
    open spec fn kind(&self) -> CompressionKind {
        CompressionKind::Zlib
    }

    fn compress(&self, bytes: &[u8]) -> (r: core::result::Result<Vec<u8>, Error>) {
        io_result(zlib_encode(bytes))
    }

    fn decompress(&self, bytes: &[u8]) -> (r: core::result::Result<Vec<u8>, Error>) {
        io_result(zlib_decode(bytes))
    }

    fn get_type(&self) -> (r: CompressionKind) {
        CompressionKind::Zlib
    }
}

impl Compression for GZip {
    open spec fn kind(&self) -> CompressionKind {
        CompressionKind::GZip
    }

    fn compress(&self, bytes: &[u8]) -> (r: core::result::Result<Vec<u8>, Error>) {
        io_result(gzip_encode(bytes))
    }

    fn decompress(&self, bytes: &[u8]) -> (r: core::result::Result<Vec<u8>, Error>) {
        io_result(gzip_decode(bytes))
    }

    fn get_type(&self) -> (r: CompressionKind) {
        CompressionKind::GZip
    }
}

impl Compression for CompressionAlgo {
    open spec fn kind(&self) -> CompressionKind {
        match self {
            CompressionAlgo::Zlib(_) => CompressionKind::Zlib,
            CompressionAlgo::GZip(_) => CompressionKind::GZip,
        }
    }

    fn compress(&self, bytes: &[u8]) -> (r: core::result::Result<Vec<u8>, Error>) {
        match self {
            CompressionAlgo::Zlib(a) => a.compress(bytes),
            CompressionAlgo::GZip(a) => a.compress(bytes),
        }
    }

    fn decompress(&self, bytes: &[u8]) -> (r: core::result::Result<Vec<u8>, Error>) {
        match self {
            CompressionAlgo::Zlib(a) => a.decompress(bytes),
            CompressionAlgo::GZip(a) => a.decompress(bytes),
        }
    }

    fn get_type(&self) -> (r: CompressionKind) {
        match self {
            CompressionAlgo::Zlib(_) => CompressionKind::Zlib,
            CompressionAlgo::GZip(_) => CompressionKind::GZip,
        }
    }
}

impl CompressionKind {
    /// The implementation of this algorithm.
    pub fn get_algo(&self) -> (r: CompressionAlgo)
        ensures
            r.kind() == *self,
    {
        match self {
            CompressionKind::GZip => CompressionAlgo::GZip(GZip),
            CompressionKind::Zlib => CompressionAlgo::Zlib(Zlib),
        }
    }
}

} // verus!
