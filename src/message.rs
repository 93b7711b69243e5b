//! The structured messages of a session and their binary encoding: fields in
//! declared order, integers little-endian, strings and byte strings behind a
//! 64-bit length, options behind a one-byte tag, enum variants as a 32-bit
//! index. Decoding is strict: a message must use every byte it is given.
use vstd::prelude::*;

use crate::error::Error;
use crate::wire::{
    dec_bytes, dec_str, dec_u32, enc_bytes, enc_str, enc_u32, lemma_bytes, lemma_bytes_canonical,
    lemma_str, lemma_str_canonical, lemma_u32, lemma_u32_canonical, put_bytes, put_str, put_u32,
    str_fits, take_bytes, take_str, take_u32,
};

verus! {

/// The role of the server in a session.
#[derive(Clone, Copy, Debug, PartialEq, Eq, Structural)]
pub enum Role {
    /// The server sends files.
    Source,
    /// The server receives files.
    Sink,
}

/// A compression algorithm that both ends apply to every chunk.
#[derive(Clone, Copy, Debug, PartialEq, Eq, Structural)]
pub enum Compression {
    Zlib,
    GZip,
}

/// A checksum algorithm that both ends apply to every chunk.
#[derive(Clone, Copy, Debug, PartialEq, Eq, Structural)]
pub enum Checksum {
    Sha256,
    Md5,
}

/// Sent before each file's chunks.
#[derive(Debug)]
pub struct FileMetadata {
    /// Where the file goes, relative to the receiver's destination.
    pub rel_path: String,
}

/// Sent by a client that pushes files to a server.
#[derive(Debug)]
pub struct UploadMetadata {
    /// How many files follow.
    pub count: u32,
    /// The directory on the server that receives them.
    pub destination: String,
    /// The sentinel chunk that closes each file.
    pub eof_marker: Vec<u8>,
    pub compression: Option<Compression>,
    pub checksum: Option<Checksum>,
}

/// Sent by a client that pulls files from a server.
#[derive(Debug)]
pub struct DownloadMetadata {
    /// The file or directory on the server to send.
    pub destination: String,
    pub compression: Option<Compression>,
    pub checksum: Option<Checksum>,
}

/// A server's answer to a download request.
#[derive(Debug)]
pub enum Result {
    /// `count` files follow, each closed by `marker`.
    Marker { count: u32, marker: Vec<u8> },
    /// The request failed, for the reason given.
    Failure(String),
}

pub struct UploadMetadataView {
    pub count: u32,
    pub destination: Seq<char>,
    pub eof_marker: Seq<u8>,
    pub compression: Option<Compression>,
    pub checksum: Option<Checksum>,
}

pub struct DownloadMetadataView {
    pub destination: Seq<char>,
    pub compression: Option<Compression>,
    pub checksum: Option<Checksum>,
}

pub enum ResultView {
    Marker { count: u32, marker: Seq<u8> },
    Failure(Seq<char>),
}

impl View for FileMetadata {
    type V = Seq<char>;

    open spec fn view(&self) -> Seq<char> {
        self.rel_path@
    }
}

impl View for UploadMetadata {
    type V = UploadMetadataView;

    open spec fn view(&self) -> UploadMetadataView {
        UploadMetadataView {
            count: self.count,
            destination: self.destination@,
            eof_marker: self.eof_marker@,
            compression: self.compression,
            checksum: self.checksum,
        }
    }
}

impl View for DownloadMetadata {
    type V = DownloadMetadataView;

    open spec fn view(&self) -> DownloadMetadataView {
        DownloadMetadataView {
            destination: self.destination@,
            compression: self.compression,
            checksum: self.checksum,
        }
    }
}

impl View for Result {
    type V = ResultView;

    open spec fn view(&self) -> ResultView {
        match self {
            Result::Marker { count, marker } => ResultView::Marker { count: *count, marker: marker@ },
            Result::Failure(s) => ResultView::Failure(s@),
        }
    }
}

// ---- encodings -------------------------------------------------------------

pub open spec fn role_tag(r: Role) -> u32 {
    match r {
        Role::Source => 0,
        Role::Sink => 1,
    }
}

pub open spec fn compression_tag(c: Compression) -> u32 {
    match c {
        Compression::Zlib => 0,
        Compression::GZip => 1,
    }
}

pub open spec fn checksum_tag(c: Checksum) -> u32 {
    match c {
        Checksum::Sha256 => 0,
        Checksum::Md5 => 1,
    }
}

pub open spec fn enc_opt_compression(o: Option<Compression>) -> Seq<u8> {
    match o {
        None => seq![0u8],
        Some(c) => seq![1u8] + enc_u32(compression_tag(c)),
    }
}

pub open spec fn enc_opt_checksum(o: Option<Checksum>) -> Seq<u8> {
    match o {
        None => seq![0u8],
        Some(c) => seq![1u8] + enc_u32(checksum_tag(c)),
    }
}

pub open spec fn dec_opt_compression(b: Seq<u8>) -> Option<(Option<Compression>, Seq<u8>)> {
    if b.len() == 0 {
        None
    } else if b[0] == 0 {
        Some((None, b.drop_first()))
    } else if b[0] == 1 {
        match dec_u32(b.drop_first()) {
            Some((t, rest)) => if t == 0 {
                Some((Some(Compression::Zlib), rest))
            } else if t == 1 {
                Some((Some(Compression::GZip), rest))
            } else {
                None
            },
            None => None,
        }
    } else {
        None
    }
}

pub open spec fn dec_opt_checksum(b: Seq<u8>) -> Option<(Option<Checksum>, Seq<u8>)> {
    if b.len() == 0 {
        None
    } else if b[0] == 0 {
        Some((None, b.drop_first()))
    } else if b[0] == 1 {
        match dec_u32(b.drop_first()) {
            Some((t, rest)) => if t == 0 {
                Some((Some(Checksum::Sha256), rest))
            } else if t == 1 {
                Some((Some(Checksum::Md5), rest))
            } else {
                None
            },
            None => None,
        }
    } else {
        None
    }
}

pub open spec fn encode_role(r: Role) -> Seq<u8> {
    enc_u32(role_tag(r))
}

pub open spec fn parse_role(b: Seq<u8>) -> Option<Role> {
    match dec_u32(b) {
        Some((t, rest)) => if rest.len() != 0 {
            None
        } else if t == 0 {
            Some(Role::Source)
        } else if t == 1 {
            Some(Role::Sink)
        } else {
            None
        },
        None => None,
    }
}

pub open spec fn encode_file_metadata(rel_path: Seq<char>) -> Seq<u8> {
    enc_str(rel_path)
}

pub open spec fn parse_file_metadata(b: Seq<u8>) -> Option<Seq<char>> {
    match dec_str(b) {
        Some((s, rest)) => if rest.len() == 0 {
            Some(s)
        } else {
            None
        },
        None => None,
    }
}

pub open spec fn encode_upload(v: UploadMetadataView) -> Seq<u8> {
    enc_u32(v.count) + enc_str(v.destination) + enc_bytes(v.eof_marker) + enc_opt_compression(
        v.compression,
    ) + enc_opt_checksum(v.checksum)
}

pub open spec fn parse_upload(b: Seq<u8>) -> Option<UploadMetadataView> {
    match dec_u32(b) {
        None => None,
        Some((count, b1)) => match dec_str(b1) {
            None => None,
            Some((destination, b2)) => match dec_bytes(b2) {
                None => None,
                Some((eof_marker, b3)) => match dec_opt_compression(b3) {
                    None => None,
                    Some((compression, b4)) => match dec_opt_checksum(b4) {
                        Some((checksum, b5)) if b5.len() == 0 => Some(
                            UploadMetadataView {
                                count,
                                destination,
                                eof_marker,
                                compression,
                                checksum,
                            },
                        ),
                        _ => None,
                    },
                },
            },
        },
    }
}

pub open spec fn encode_download(v: DownloadMetadataView) -> Seq<u8> {
    enc_str(v.destination) + enc_opt_compression(v.compression) + enc_opt_checksum(v.checksum)
}

pub open spec fn parse_download(b: Seq<u8>) -> Option<DownloadMetadataView> {
    match dec_str(b) {
        None => None,
        Some((destination, b1)) => match dec_opt_compression(b1) {
            None => None,
            Some((compression, b2)) => match dec_opt_checksum(b2) {
                Some((checksum, b3)) if b3.len() == 0 => Some(
                    DownloadMetadataView { destination, compression, checksum },
                ),
                _ => None,
            },
        },
    }
}

pub open spec fn encode_result(v: ResultView) -> Seq<u8> {
    match v {
        ResultView::Marker { count, marker } => enc_u32(0) + enc_u32(count) + enc_bytes(marker),
        ResultView::Failure(s) => enc_u32(1) + enc_str(s),
    }
}

pub open spec fn parse_result(b: Seq<u8>) -> Option<ResultView> {
    match dec_u32(b) {
        None => None,
        Some((t, b1)) => if t == 0 {
            match dec_u32(b1) {
                None => None,
                Some((count, b2)) => match dec_bytes(b2) {
                    Some((marker, b3)) if b3.len() == 0 => Some(ResultView::Marker { count, marker }),
                    _ => None,
                },
            }
        } else if t == 1 {
            match dec_str(b1) {
                Some((s, b2)) if b2.len() == 0 => Some(ResultView::Failure(s)),
                _ => None,
            }
        } else {
            None
        },
    }
}

// ---- round trips ------------------------------------------------------------

proof fn lemma_opt_compression(o: Option<Compression>, rest: Seq<u8>)
    ensures
        dec_opt_compression(enc_opt_compression(o) + rest) == Some((o, rest)),
{
    let b = enc_opt_compression(o) + rest;
    match o {
        None => {
            assert(b.drop_first() =~= rest);
        },
        Some(c) => {
            lemma_u32(compression_tag(c), rest);
            assert(b.drop_first() =~= enc_u32(compression_tag(c)) + rest);
        },
    }
}

proof fn lemma_opt_compression_canonical(b: Seq<u8>)
    ensures
        dec_opt_compression(b) matches Some((o, rest)) ==> b == enc_opt_compression(o) + rest,
{
    if b.len() > 0 {
        lemma_u32_canonical(b.drop_first());
        assert(b =~= seq![b[0]] + b.drop_first());
    }
}

proof fn lemma_opt_checksum(o: Option<Checksum>, rest: Seq<u8>)
    ensures
        dec_opt_checksum(enc_opt_checksum(o) + rest) == Some((o, rest)),
{
    let b = enc_opt_checksum(o) + rest;
    match o {
        None => {
            assert(b.drop_first() =~= rest);
        },
        Some(c) => {
            lemma_u32(checksum_tag(c), rest);
            assert(b.drop_first() =~= enc_u32(checksum_tag(c)) + rest);
        },
    }
}

proof fn lemma_opt_checksum_canonical(b: Seq<u8>)
    ensures
        dec_opt_checksum(b) matches Some((o, rest)) ==> b == enc_opt_checksum(o) + rest,
{
    if b.len() > 0 {
        lemma_u32_canonical(b.drop_first());
        assert(b =~= seq![b[0]] + b.drop_first());
    }
}

/// A role decodes to the role that was encoded.
pub proof fn lemma_role_round_trip(r: Role)
    ensures
        parse_role(encode_role(r)) == Some(r),
{
    lemma_u32(role_tag(r), Seq::empty());
    assert(encode_role(r) + Seq::<u8>::empty() =~= encode_role(r));
}

/// Only the encoding of a role decodes to it.
pub proof fn lemma_role_canonical(b: Seq<u8>)
    ensures
        parse_role(b) matches Some(r) ==> b == encode_role(r),
{
    lemma_u32_canonical(b);
    if let Some(r) = parse_role(b) {
        let (t, rest) = dec_u32(b).unwrap();
        assert(enc_u32(t) + rest =~= enc_u32(t));
    }
}

/// File metadata decodes to the path that was encoded.
pub proof fn lemma_file_metadata_round_trip(rel_path: Seq<char>)
    requires
        str_fits(rel_path),
    ensures
        parse_file_metadata(encode_file_metadata(rel_path)) == Some(rel_path),
{
    lemma_str(rel_path, Seq::empty());
    assert(enc_str(rel_path) + Seq::<u8>::empty() =~= enc_str(rel_path));
}

/// Only the encoding of a path decodes to it.
pub proof fn lemma_file_metadata_canonical(b: Seq<u8>)
    ensures
        parse_file_metadata(b) matches Some(p) ==> b == encode_file_metadata(p),
{
    lemma_str_canonical(b);
    if let Some(p) = parse_file_metadata(b) {
        let (s, rest) = dec_str(b).unwrap();
        assert(enc_str(s) + rest =~= enc_str(s));
    }
}

/// Upload metadata decodes to the metadata that was encoded.
#[verifier::spinoff_prover]
pub proof fn lemma_upload_round_trip(v: UploadMetadataView)
    requires
        str_fits(v.destination),
        v.eof_marker.len() <= u64::MAX,
    ensures
        parse_upload(encode_upload(v)) == Some(v),
{
    let e1 = enc_u32(v.count);
    let e2 = enc_str(v.destination);
    let e3 = enc_bytes(v.eof_marker);
    let e4 = enc_opt_compression(v.compression);
    let e5 = enc_opt_checksum(v.checksum);
    let empty = Seq::<u8>::empty();
    assert(encode_upload(v) =~= e1 + (e2 + (e3 + (e4 + (e5 + empty)))));
    lemma_u32(v.count, e2 + (e3 + (e4 + (e5 + empty))));
    lemma_str(v.destination, e3 + (e4 + (e5 + empty)));
    lemma_bytes(v.eof_marker, e4 + (e5 + empty));
    lemma_opt_compression(v.compression, e5 + empty);
    lemma_opt_checksum(v.checksum, empty);
}

/// Only the encoding of upload metadata decodes to it.
#[verifier::spinoff_prover]
pub proof fn lemma_upload_canonical(b: Seq<u8>)
    ensures
        parse_upload(b) matches Some(v) ==> b == encode_upload(v),
{
    if let Some(v) = parse_upload(b) {
        let (_, b1) = dec_u32(b).unwrap();
        let (_, b2) = dec_str(b1).unwrap();
        let (_, b3) = dec_bytes(b2).unwrap();
        let (_, b4) = dec_opt_compression(b3).unwrap();
        let (_, b5) = dec_opt_checksum(b4).unwrap();
        lemma_u32_canonical(b);
        lemma_str_canonical(b1);
        lemma_bytes_canonical(b2);
        lemma_opt_compression_canonical(b3);
        lemma_opt_checksum_canonical(b4);
        assert(b5 =~= Seq::<u8>::empty());
        assert(b =~= encode_upload(v));
    }
}

/// Download metadata decodes to the metadata that was encoded.
pub proof fn lemma_download_round_trip(v: DownloadMetadataView)
    requires
        str_fits(v.destination),
    ensures
        parse_download(encode_download(v)) == Some(v),
{
    let e1 = enc_str(v.destination);
    let e2 = enc_opt_compression(v.compression);
    let e3 = enc_opt_checksum(v.checksum);
    let empty = Seq::<u8>::empty();
    assert(encode_download(v) =~= e1 + (e2 + (e3 + empty)));
    lemma_str(v.destination, e2 + (e3 + empty));
    lemma_opt_compression(v.compression, e3 + empty);
    lemma_opt_checksum(v.checksum, empty);
}

/// Only the encoding of download metadata decodes to it.
pub proof fn lemma_download_canonical(b: Seq<u8>)
    ensures
        parse_download(b) matches Some(v) ==> b == encode_download(v),
{
    if let Some(v) = parse_download(b) {
        let (_, b1) = dec_str(b).unwrap();
        let (_, b2) = dec_opt_compression(b1).unwrap();
        let (_, b3) = dec_opt_checksum(b2).unwrap();
        lemma_str_canonical(b);
        lemma_opt_compression_canonical(b1);
        lemma_opt_checksum_canonical(b2);
        assert(b3 =~= Seq::<u8>::empty());
        assert(b =~= encode_download(v));
    }
}

/// A download answer decodes to the answer that was encoded.
pub proof fn lemma_result_round_trip(v: ResultView)
    requires
        v matches ResultView::Marker { marker, .. } ==> marker.len() <= u64::MAX,
        v matches ResultView::Failure(s) ==> str_fits(s),
    ensures
        parse_result(encode_result(v)) == Some(v),
{
    let empty = Seq::<u8>::empty();
    match v {
        ResultView::Marker { count, marker } => {
            let e2 = enc_u32(count);
            let e3 = enc_bytes(marker);
            assert(encode_result(v) =~= enc_u32(0) + (e2 + (e3 + empty)));
            lemma_u32(0, e2 + (e3 + empty));
            lemma_u32(count, e3 + empty);
            lemma_bytes(marker, empty);
        },
        ResultView::Failure(s) => {
            let e2 = enc_str(s);
            assert(encode_result(v) =~= enc_u32(1) + (e2 + empty));
            lemma_u32(1, e2 + empty);
            lemma_str(s, empty);
        },
    }
}

/// Only the encoding of a download answer decodes to it.
pub proof fn lemma_result_canonical(b: Seq<u8>)
    ensures
        parse_result(b) matches Some(v) ==> b == encode_result(v),
{
    if let Some(v) = parse_result(b) {
        let (t, b1) = dec_u32(b).unwrap();
        lemma_u32_canonical(b);
        if t == 0 {
            let (_, b2) = dec_u32(b1).unwrap();
            let (_, b3) = dec_bytes(b2).unwrap();
            lemma_u32_canonical(b1);
            lemma_bytes_canonical(b2);
            assert(b3 =~= Seq::<u8>::empty());
        } else {
            let (_, b2) = dec_str(b1).unwrap();
            lemma_str_canonical(b1);
            assert(b2 =~= Seq::<u8>::empty());
        }
        assert(b =~= encode_result(v));
    }
}

// ---- executable encoders and decoders --------------------------------------

fn put_opt_compression(out: &mut Vec<u8>, o: Option<Compression>)
    ensures
        final(out)@ == old(out)@ + enc_opt_compression(o),
{
    match o {
        None => out.push(0u8),
        Some(c) => {
            out.push(1u8);
            put_u32(
                out,
                match c {
                    Compression::Zlib => 0,
                    Compression::GZip => 1,
                },
            );
        },
    }
    assert(out@ =~= old(out)@ + enc_opt_compression(o));
}

fn put_opt_checksum(out: &mut Vec<u8>, o: Option<Checksum>)
    ensures
        final(out)@ == old(out)@ + enc_opt_checksum(o),
{
    match o {
        None => out.push(0u8),
        Some(c) => {
            out.push(1u8);
            put_u32(
                out,
                match c {
                    Checksum::Sha256 => 0,
                    Checksum::Md5 => 1,
                },
            );
        },
    }
    assert(out@ =~= old(out)@ + enc_opt_checksum(o));
}

fn take_opt_compression(b: &[u8], pos: usize) -> (r: Option<(Option<Compression>, usize)>)
    requires
        pos <= b@.len(),
    ensures
        match dec_opt_compression(b@.subrange(pos as int, b@.len() as int)) {
            None => r is None,
            Some((o, rest)) => r matches Some((p, end)) && p == o && pos <= end <= b@.len() && rest
                == b@.subrange(end as int, b@.len() as int),
        },
{
    let ghost s = b@.subrange(pos as int, b@.len() as int);
    if pos == b.len() {
        return None;
    }
    let tag = b[pos];
    assert(s[0] == tag);
    assert(s.drop_first() =~= b@.subrange(pos + 1, b@.len() as int));
    if tag == 0 {
        Some((None, pos + 1))
    } else if tag == 1 {
        match take_u32(b, pos + 1) {
            None => None,
            Some((t, end)) => if t == 0 {
                Some((Some(Compression::Zlib), end))
            } else if t == 1 {
                Some((Some(Compression::GZip), end))
            } else {
                None
            },
        }
    } else {
        None
    }
}

fn take_opt_checksum(b: &[u8], pos: usize) -> (r: Option<(Option<Checksum>, usize)>)
    requires
        pos <= b@.len(),
    ensures
        match dec_opt_checksum(b@.subrange(pos as int, b@.len() as int)) {
            None => r is None,
            Some((o, rest)) => r matches Some((p, end)) && p == o && pos <= end <= b@.len() && rest
                == b@.subrange(end as int, b@.len() as int),
        },
{
    let ghost s = b@.subrange(pos as int, b@.len() as int);
    if pos == b.len() {
        return None;
    }
    let tag = b[pos];
    assert(s[0] == tag);
    assert(s.drop_first() =~= b@.subrange(pos + 1, b@.len() as int));
    if tag == 0 {
        Some((None, pos + 1))
    } else if tag == 1 {
        match take_u32(b, pos + 1) {
            None => None,
            Some((t, end)) => if t == 0 {
                Some((Some(Checksum::Sha256), end))
            } else if t == 1 {
                Some((Some(Checksum::Md5), end))
            } else {
                None
            },
        }
    } else {
        None
    }
}

impl Role {
    pub fn to_bytes(&self) -> (r: Vec<u8>)
        ensures
            r@ == encode_role(*self),
    {
        let mut out: Vec<u8> = Vec::new();
        put_u32(
            &mut out,
            match self {
                Role::Source => 0,
                Role::Sink => 1,
            },
        );
        assert(out@ =~= encode_role(*self));
        out
    }

    /// Decodes a role; fails with `Deserialize` exactly when `bytes` is not
    /// the encoding of a role.
    pub fn from_bytes(bytes: &[u8]) -> (r: core::result::Result<Role, Error>)
        ensures
            match r {
                Ok(role) => parse_role(bytes@) == Some(role),
                Err(e) => parse_role(bytes@) is None && e is Deserialize,
            },
    {
        assert(bytes@.subrange(0, bytes@.len() as int) =~= bytes@);
        match take_u32(bytes, 0) {
            Some((t, end)) => if end != bytes.len() {
                Err(Error::Deserialize)
            } else if t == 0 {
                Ok(Role::Source)
            } else if t == 1 {
                Ok(Role::Sink)
            } else {
                Err(Error::Deserialize)
            },
            None => Err(Error::Deserialize),
        }
    }
}

impl FileMetadata {
    pub fn new(path: &str) -> (r: Self)
        ensures
            r@ == path@,
    {
        FileMetadata { rel_path: path.to_owned() }
    }

    pub fn to_bytes(&self) -> (r: Vec<u8>)
        ensures
            r@ == encode_file_metadata(self@),
    {
        let mut out: Vec<u8> = Vec::new();
        put_str(&mut out, self.rel_path.as_str());
        assert(out@ =~= encode_file_metadata(self@));
        out
    }

    /// Decodes file metadata; fails with `Deserialize` exactly when `bytes`
    /// is not the encoding of any.
    pub fn from_bytes(bytes: &[u8]) -> (r: core::result::Result<FileMetadata, Error>)
        ensures
            match r {
                Ok(m) => parse_file_metadata(bytes@) == Some(m@),
                Err(e) => parse_file_metadata(bytes@) is None && e is Deserialize,
            },
    {
        assert(bytes@.subrange(0, bytes@.len() as int) =~= bytes@);
        match take_str(bytes, 0) {
            Some((s, end)) => if end == bytes.len() {
                Ok(FileMetadata { rel_path: s })
            } else {
                Err(Error::Deserialize)
            },
            None => Err(Error::Deserialize),
        }
    }
}

impl UploadMetadata {
    /// Metadata announcing `count` files for `destination`, each closed by
    /// `eof_marker`, with no compression and no checksum.
    pub fn new(count: u32, destination: &str, eof_marker: &[u8]) -> (r: Self)
        ensures
            r@ == (UploadMetadataView {
                count,
                destination: destination@,
                eof_marker: eof_marker@,
                compression: None,
                checksum: None,
            }),
    {
        UploadMetadata {
            count,
            destination: destination.to_owned(),
            eof_marker: vstd::slice::slice_to_vec(eof_marker),
            compression: None,
            checksum: None,
        }
    }

    pub fn with_compression(self, compression: Option<Compression>) -> (r: Self)
        ensures
            r@ == (UploadMetadataView { compression, ..self@ }),
    {
        UploadMetadata { compression, ..self }
    }

    pub fn with_checksum(self, checksum: Option<Checksum>) -> (r: Self)
        ensures
            r@ == (UploadMetadataView { checksum, ..self@ }),
    {
        UploadMetadata { checksum, ..self }
    }

    pub fn to_bytes(&self) -> (r: Vec<u8>)
        ensures
            r@ == encode_upload(self@),
    {
        let mut out: Vec<u8> = Vec::new();
        put_u32(&mut out, self.count);
        put_str(&mut out, self.destination.as_str());
        put_bytes(&mut out, self.eof_marker.as_slice());
        put_opt_compression(&mut out, self.compression);
        put_opt_checksum(&mut out, self.checksum);
        assert(out@ =~= encode_upload(self@));
        out
    }

    /// Decodes upload metadata; fails with `Deserialize` exactly when `bytes`
    /// is not the encoding of any, an unknown algorithm included.
    #[verifier::spinoff_prover]
    pub fn from_bytes(bytes: &[u8]) -> (r: core::result::Result<UploadMetadata, Error>)
        ensures
            match r {
                Ok(m) => parse_upload(bytes@) == Some(m@),
                Err(e) => parse_upload(bytes@) is None && e is Deserialize,
            },
    {
        assert(bytes@.subrange(0, bytes@.len() as int) =~= bytes@);
        let (count, p1) = match take_u32(bytes, 0) {
            Some(x) => x,
            None => return Err(Error::Deserialize),
        };
        let (destination, p2) = match take_str(bytes, p1) {
            Some(x) => x,
            None => return Err(Error::Deserialize),
        };
        let (eof_marker, p3) = match take_bytes(bytes, p2) {
            Some(x) => x,
            None => return Err(Error::Deserialize),
        };
        let (compression, p4) = match take_opt_compression(bytes, p3) {
            Some(x) => x,
            None => return Err(Error::Deserialize),
        };
        let (checksum, p5) = match take_opt_checksum(bytes, p4) {
            Some(x) => x,
            None => return Err(Error::Deserialize),
        };
        if p5 != bytes.len() {
            return Err(Error::Deserialize);
        }
        Ok(UploadMetadata { count, destination, eof_marker, compression, checksum })
    }
}

impl DownloadMetadata {
    /// A request for `destination`, with no compression and no checksum.
    pub fn new(destination: &str) -> (r: Self)
        ensures
            r@ == (DownloadMetadataView {
                destination: destination@,
                compression: None,
                checksum: None,
            }),
    {
        DownloadMetadata { destination: destination.to_owned(), compression: None, checksum: None }
    }

    pub fn with_compression(self, compression: Option<Compression>) -> (r: Self)
        ensures
            r@ == (DownloadMetadataView { compression, ..self@ }),
    {
        DownloadMetadata { compression, ..self }
    }

    pub fn with_checksum(self, checksum: Option<Checksum>) -> (r: Self)
        ensures
            r@ == (DownloadMetadataView { checksum, ..self@ }),
    {
        DownloadMetadata { checksum, ..self }
    }

    pub fn to_bytes(&self) -> (r: Vec<u8>)
        ensures
            r@ == encode_download(self@),
    {
        let mut out: Vec<u8> = Vec::new();
        put_str(&mut out, self.destination.as_str());
        put_opt_compression(&mut out, self.compression);
        put_opt_checksum(&mut out, self.checksum);
        assert(out@ =~= encode_download(self@));
        out
    }

    /// Decodes download metadata; fails with `Deserialize` exactly when
    /// `bytes` is not the encoding of any, an unknown algorithm included.
    pub fn from_bytes(bytes: &[u8]) -> (r: core::result::Result<DownloadMetadata, Error>)
        ensures
            match r {
                Ok(m) => parse_download(bytes@) == Some(m@),
                Err(e) => parse_download(bytes@) is None && e is Deserialize,
            },
    {
        assert(bytes@.subrange(0, bytes@.len() as int) =~= bytes@);
        let (destination, p1) = match take_str(bytes, 0) {
            Some(x) => x,
            None => return Err(Error::Deserialize),
        };
        let (compression, p2) = match take_opt_compression(bytes, p1) {
            Some(x) => x,
            None => return Err(Error::Deserialize),
        };
        let (checksum, p3) = match take_opt_checksum(bytes, p2) {
            Some(x) => x,
            None => return Err(Error::Deserialize),
        };
        if p3 != bytes.len() {
            return Err(Error::Deserialize);
        }
        Ok(DownloadMetadata { destination, compression, checksum })
    }
}

impl Result {
    pub fn to_bytes(&self) -> (r: Vec<u8>)
        ensures
            r@ == encode_result(self@),
    {
        let mut out: Vec<u8> = Vec::new();
        match self {
            Result::Marker { count, marker } => {
                put_u32(&mut out, 0);
                put_u32(&mut out, *count);
                put_bytes(&mut out, marker.as_slice());
            },
            Result::Failure(s) => {
                put_u32(&mut out, 1);
                put_str(&mut out, s.as_str());
            },
        }
        assert(out@ =~= encode_result(self@));
        out
    }

    /// Decodes a download answer; fails with `Deserialize` exactly when
    /// `bytes` is not the encoding of any.
    pub fn from_bytes(bytes: &[u8]) -> (r: core::result::Result<Result, Error>)
        ensures
            match r {
                Ok(m) => parse_result(bytes@) == Some(m@),
                Err(e) => parse_result(bytes@) is None && e is Deserialize,
            },
    {
        assert(bytes@.subrange(0, bytes@.len() as int) =~= bytes@);
        let (tag, p1) = match take_u32(bytes, 0) {
            Some(x) => x,
            None => return Err(Error::Deserialize),
        };
        if tag == 0 {
            let (count, p2) = match take_u32(bytes, p1) {
                Some(x) => x,
                None => return Err(Error::Deserialize),
            };
            let (marker, p3) = match take_bytes(bytes, p2) {
                Some(x) => x,
                None => return Err(Error::Deserialize),
            };
            if p3 != bytes.len() {
                return Err(Error::Deserialize);
            }
            Ok(Result::Marker { count, marker })
        } else if tag == 1 {
            let (s, p2) = match take_str(bytes, p1) {
                Some(x) => x,
                None => return Err(Error::Deserialize),
            };
            if p2 != bytes.len() {
                return Err(Error::Deserialize);
            }
            Ok(Result::Failure(s))
        } else {
            Err(Error::Deserialize)
        }
    }
}

} // verus!
