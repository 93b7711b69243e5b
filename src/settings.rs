//! Client settings as read from a configuration file, and the algorithm
//! names that the command line and the file use.
use vstd::prelude::*;
use vstd::string::StringExecFns;
use vstd::utf8::{encode_utf8, encode_utf8_decode_utf8};

use crate::error::Error;
use crate::message::{Checksum, Compression};

verus! {

/// Values a configuration file may set; each is absent when the file does
/// not set it.
#[derive(Debug)]
pub struct Settings {
    pub source: Option<String>,
    pub sink: Option<String>,
    pub compression: Option<String>,
    pub checksum: Option<String>,
    pub chunk_bytes: Option<u64>,
    pub write_timeout: Option<u64>,
}

impl Default for Settings {
    fn default() -> (r: Settings)
        ensures
            r.source is None && r.sink is None && r.compression is None && r.checksum is None
                && r.chunk_bytes is None && r.write_timeout is None,
    {
        Settings {
            source: None,
            sink: None,
            compression: None,
            checksum: None,
            chunk_bytes: None,
            write_timeout: None,
        }
    }
}

/// Whether two strings are equal, compared by their UTF-8 bytes.
fn same_text(a: &str, b: &str) -> (r: bool)
    ensures
        r == (a@ == b@),
{
    let x = a.as_bytes();
    let y = b.as_bytes();
    proof {
        encode_utf8_decode_utf8(a@);
        encode_utf8_decode_utf8(b@);
    }
    if x.len() != y.len() {
        return false;
    }
    let mut i: usize = 0;
    while i < x.len()
        invariant
            i <= x@.len(),
            x@.len() == y@.len(),
            x@ == encode_utf8(a@),
            y@ == encode_utf8(b@),
            forall|k: int| 0 <= k < i ==> x@[k] == y@[k],
        decreases x@.len() - i,
    {
        if x[i] != y[i] {
            return false;
        }
        i = i + 1;
    }
    assert(x@ =~= y@);
    true
}

impl Compression {
    /// The compression named `name`: `Zlib` or `GZip`.
    pub fn from_name(name: &str) -> (r: core::result::Result<Compression, Error>)
        ensures
            name@ == "Zlib"@ ==> r matches Ok(Compression::Zlib),
            name@ == "GZip"@ ==> r matches Ok(Compression::GZip),
            name@ != "Zlib"@ && name@ != "GZip"@ ==> (r matches Err(Error::InvalidArgument(m))
                && m@ == "Invalid compression type "@ + name@),
    {
        proof {
            reveal_strlit("Zlib");
            reveal_strlit("GZip");
            assert("Zlib"@[0] != "GZip"@[0]);
        }
        if same_text(name, "Zlib") {
            Ok(Compression::Zlib)
        } else if same_text(name, "GZip") {
            Ok(Compression::GZip)
        } else {
            let mut m = "Invalid compression type ".to_owned();
            m.append(name);
            Err(Error::InvalidArgument(m))
        }
    }
}

impl Checksum {
    /// The checksum named `name`: `Sha256` or `Md5`.
    pub fn from_name(name: &str) -> (r: core::result::Result<Checksum, Error>)
        ensures
            name@ == "Sha256"@ ==> r matches Ok(Checksum::Sha256),
            name@ == "Md5"@ ==> r matches Ok(Checksum::Md5),
            name@ != "Sha256"@ && name@ != "Md5"@ ==> (r matches Err(Error::InvalidArgument(m))
                && m@ == "Invalid checksum type "@ + name@),
    {
        proof {
            reveal_strlit("Sha256");
            reveal_strlit("Md5");
            assert("Sha256"@[0] != "Md5"@[0]);
        }
        if same_text(name, "Sha256") {
            Ok(Checksum::Sha256)
        } else if same_text(name, "Md5") {
            Ok(Checksum::Md5)
        } else {
            let mut m = "Invalid checksum type ".to_owned();
            m.append(name);
            Err(Error::InvalidArgument(m))
        }
    }
}

} // verus!
