//! A two-endpoint file-transfer protocol: length-prefixed framing, a binary
//! message schema, optional per-chunk compression and checksums, and a link
//! engine that streams files as chunks closed by an end-of-file sentinel.
use rand::RngCore;
use vstd::prelude::*;

pub mod checksum;
pub mod compression;
pub mod connection;
pub mod error;
pub mod framing;
pub mod message;
pub mod path;
pub mod session;
pub mod settings;
pub mod wire;

pub use connection::{Block, Link, ReceivedFile};
pub use error::Error;
pub use session::{ClientSession, Listing, ServerSession};
pub use settings::Settings;
pub use message::{
    Checksum, Compression, DownloadMetadata, FileMetadata, Result, Role, UploadMetadata,
};

verus! {

/// The number of file bytes in each chunk, and the length of the
/// end-of-file sentinel.
pub const CHUNK: usize = 16384;

/// Relies on `rand::rngs::OsRng::try_fill_bytes`: fills the buffer from the
/// operating system's random source, or reports that it could not.
#[verifier::external_body]
fn os_random_bytes(n: usize) -> (r: Option<Vec<u8>>)
    ensures
        r matches Some(v) ==> v@.len() == n,
{
    let mut buf = vec![0u8; n];
    match rand::rngs::OsRng.try_fill_bytes(&mut buf) {
        Ok(()) => Some(buf),
        Err(_) => None,
    }
}

/// A fresh end-of-file sentinel: `CHUNK` random bytes from the operating
/// system, or `None` when its random source fails.
pub fn generate_eof_marker() -> (r: Option<Vec<u8>>)
    ensures
        r matches Some(v) ==> v@.len() == CHUNK,
{
    os_random_bytes(CHUNK)
}

} // verus!
