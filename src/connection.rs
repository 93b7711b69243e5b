//! The link engine: one session's byte streams in each direction and the
//! negotiated codec stack. A link holds the bytes it has received but not yet
//! read, and the bytes it has produced but not yet handed to the transport;
//! the transport itself stays outside.
use vstd::prelude::*;
use vstd::slice::{slice_subrange, slice_to_vec};
use vstd::string::StringExecFns;
use vstd::utf8::{
    decode_utf8, encode_utf8_decode_utf8, encode_utf8_valid_utf8, valid_utf8,
};

use crate::checksum::{checksum_hex, digest_bytes, lemma_digest_bytes_len, Checksum};
use crate::compression::{compressed, decompressed, Compression};
use crate::error::{unexpected_eof, Error};
use crate::framing::{
    append_bytes, append_frame, frame, frame_need, frame_needed, lemma_frame_round_trip, read_frame,
    split_frame,
};
use crate::message::{
    encode_download, encode_file_metadata, encode_result, encode_role, encode_upload,
    lemma_file_metadata_round_trip, parse_download, parse_file_metadata, parse_result, parse_role, parse_upload,
    Checksum as ChecksumKind, Compression as CompressionKind, DownloadMetadata,
    DownloadMetadataView, FileMetadata, Result as Answer, ResultView, Role, UploadMetadata,
    UploadMetadataView,
};
use crate::path::{is_contained, stays_inside};
use crate::wire::str_fits;
use crate::CHUNK;

verus! {

/// One end of a session.
pub struct Link {
    incoming: Vec<u8>,
    outgoing: Vec<u8>,
    compression: Option<CompressionKind>,
    checksum: Option<ChecksumKind>,
    marker: Vec<u8>,
}

/// What a link holds, as values.
pub struct LinkView {
    /// Received bytes not yet read.
    pub incoming: Seq<u8>,
    /// Produced bytes not yet sent.
    pub outgoing: Seq<u8>,
    pub compression: Option<CompressionKind>,
    pub checksum: Option<ChecksumKind>,
    /// The sentinel this end closes the files it sends with.
    pub marker: Seq<u8>,
}

impl View for Link {
    type V = LinkView;

    closed spec fn view(&self) -> LinkView {
        LinkView {
            incoming: self.incoming@,
            outgoing: self.outgoing@,
            compression: self.compression,
            checksum: self.checksum,
            marker: self.marker@,
        }
    }
}

// ---- one chunk on the wire ---------------------------------------------------

/// What is sent for `b` as the payload: `b` itself, or its compressed form;
/// `None` when the compressor refuses it.
pub open spec fn encoded(co: Option<CompressionKind>, b: Seq<u8>) -> Option<Seq<u8>> {
    match co {
        None => Some(b),
        Some(k) => compressed(k, b),
    }
}

/// What a received payload stands for: itself, or its decompressed form;
/// `None` when the decompressor refuses it.
pub open spec fn decoded(co: Option<CompressionKind>, p: Seq<u8>) -> Option<Seq<u8>> {
    match co {
        None => Some(p),
        Some(k) => decompressed(k, p),
    }
}

/// The payload sent for `b`, when it is encoded.
pub open spec fn payload(co: Option<CompressionKind>, b: Seq<u8>) -> Seq<u8> {
    match encoded(co, b) {
        Some(p) => p,
        None => Seq::empty(),
    }
}

/// Chunk `b` can be sent: it is encoded, and its payload fits a frame.
pub open spec fn sendable(co: Option<CompressionKind>, b: Seq<u8>) -> bool {
    encoded(co, b) matches Some(p) && p.len() <= u32::MAX
}

/// The bytes that carry chunk `b`: its digest frame when a checksum is in
/// use, then the frame of its payload.
pub open spec fn chunk_wire(cs: Option<ChecksumKind>, co: Option<CompressionKind>, b: Seq<u8>) -> Seq<
    u8,
> {
    match cs {
        None => frame(payload(co, b)),
        Some(k) => frame(digest_bytes(k, b)) + frame(payload(co, b)),
    }
}

/// What reading one chunk gives.
pub enum ChunkOutcome {
    /// The bytes do not hold a whole chunk yet.
    Short,
    /// A chunk that passed its check.
    Data(Seq<u8>),
    /// The checksum frame was empty.
    NoDigest,
    /// The checksum frame was not UTF-8.
    Unparsable,
    /// The decompressor refused the payload.
    CodecFailed,
    /// The chunk did not match its checksum.
    Mismatch,
}

/// Reads one chunk from the front of `s`: what it gives and what is left.
/// Nothing is consumed from a short stream. A checksum frame that is empty
/// or not UTF-8 fails at once and is consumed alone.
pub open spec fn recv_chunk(cs: Option<ChecksumKind>, co: Option<CompressionKind>, s: Seq<u8>) -> (
    ChunkOutcome,
    Seq<u8>,
) {
    match cs {
        None => match split_frame(s) {
            None => (ChunkOutcome::Short, s),
            Some((p, rest)) => (
                match decoded(co, p) {
                    Some(c) => ChunkOutcome::Data(c),
                    None => ChunkOutcome::CodecFailed,
                },
                rest,
            ),
        },
        Some(k) => match split_frame(s) {
            None => (ChunkOutcome::Short, s),
            Some((d, r1)) => if d.len() == 0 {
                (ChunkOutcome::NoDigest, r1)
            } else if !valid_utf8(d) {
                (ChunkOutcome::Unparsable, r1)
            } else {
                match split_frame(r1) {
                    None => (ChunkOutcome::Short, s),
                    Some((p, rest)) => (
                        match decoded(co, p) {
                            Some(c) => if decode_utf8(d) == checksum_hex(k, c) {
                                ChunkOutcome::Data(c)
                            } else {
                                ChunkOutcome::Mismatch
                            },
                            None => ChunkOutcome::CodecFailed,
                        },
                        rest,
                    ),
                }
            },
        },
    }
}

/// How many more bytes `s` needs before it holds a whole chunk.
pub open spec fn chunk_need(checked: bool, s: Seq<u8>) -> nat {
    if !checked || frame_need(s) > 0 {
        frame_need(s)
    } else {
        match split_frame(s) {
            Some((d, r1)) => if d.len() == 0 || !valid_utf8(d) {
                0
            } else {
                frame_need(r1)
            },
            None => 0,
        }
    }
}

/// `r` is what the link reports for outcome `o`.
pub open spec fn reports(r: core::result::Result<Vec<u8>, Error>, o: ChunkOutcome) -> bool {
    match o {
        ChunkOutcome::Short => r matches Err(Error::IO(_)),
        ChunkOutcome::Data(c) => r matches Ok(v) && v@ == c,
        ChunkOutcome::NoDigest => r matches Err(Error::IntegrityError(m)) && m@
            == "checksum bytes not determined"@,
        ChunkOutcome::Unparsable => r matches Err(Error::IntegrityError(m)) && m@
            == "unable to parse checksum bytes"@,
        ChunkOutcome::CodecFailed => r matches Err(Error::IO(_)),
        ChunkOutcome::Mismatch => r matches Err(Error::IntegrityError(m)) && m@
            == "checksum verification failed"@,
    }
}

/// The contract of sending chunk `b`: it succeeds exactly when `b` is
/// sendable, and then adds exactly its wire bytes; on failure nothing is
/// added, and the failure is the codec's error or a payload too long for a
/// frame.
pub open spec fn sends(
    before: LinkView,
    after: LinkView,
    r: core::result::Result<(), Error>,
    b: Seq<u8>,
) -> bool {
    &&& r is Ok <==> sendable(before.compression, b)
    &&& r is Ok ==> after == LinkView {
        outgoing: before.outgoing + chunk_wire(before.checksum, before.compression, b),
        ..before
    }
    &&& r is Err ==> after == before
    &&& r matches Err(e) ==> if encoded(before.compression, b) is None {
        e is IO
    } else {
        e is InvalidArgument
    }
}

impl Link {
    /// A link with empty streams and no codecs, that closes the files it
    /// sends with `marker`.
    pub fn new(marker: Vec<u8>) -> (r: Link)
        ensures
            r@ == (LinkView {
                incoming: Seq::empty(),
                outgoing: Seq::empty(),
                compression: None,
                checksum: None,
                marker: marker@,
            }),
    {
        Link {
            incoming: Vec::new(),
            outgoing: Vec::new(),
            compression: None,
            checksum: None,
            marker,
        }
    }

    pub fn with_compression(self, compression: Option<CompressionKind>) -> (r: Link)
        ensures
            r@ == (LinkView { compression, ..self@ }),
    {
        Link { compression, ..self }
    }

    pub fn with_checksum(self, checksum: Option<ChecksumKind>) -> (r: Link)
        ensures
            r@ == (LinkView { checksum, ..self@ }),
    {
        Link { checksum, ..self }
    }

    pub fn compression(&self) -> (r: Option<CompressionKind>)
        ensures
            r == self@.compression,
    {
        self.compression
    }

    pub fn checksum(&self) -> (r: Option<ChecksumKind>)
        ensures
            r == self@.checksum,
    {
        self.checksum
    }

    /// The sentinel this end closes the files it sends with.
    pub fn marker(&self) -> (r: &[u8])
        ensures
            r@ == self@.marker,
    {
        self.marker.as_slice()
    }

    /// Hands received bytes to the link.
    pub fn feed(&mut self, bytes: &[u8])
        ensures
            final(self)@ == (LinkView { incoming: old(self)@.incoming + bytes@, ..old(self)@ }),
    {
        crate::framing::append_bytes(&mut self.incoming, bytes);
    }

    /// Takes the bytes produced so far, for the transport to send.
    pub fn take_outgoing(&mut self) -> (r: Vec<u8>)
        ensures
            r@ == old(self)@.outgoing,
            final(self)@ == (LinkView { outgoing: Seq::empty(), ..old(self)@ }),
    {
        let mut r: Vec<u8> = Vec::new();
        std::mem::swap(&mut r, &mut self.outgoing);
        r
    }

    /// How many more received bytes the next whole frame needs.
    pub fn frame_needed(&self) -> (r: u64)
        ensures
            r == frame_need(self@.incoming),
    {
        frame_needed(self.incoming.as_slice())
    }

    /// How many more received bytes the next whole chunk needs.
    pub fn chunk_needed(&self) -> (r: u64)
        ensures
            r == chunk_need(self@.checksum is Some, self@.incoming),
    {
        let n = frame_needed(self.incoming.as_slice());
        if self.checksum.is_none() || n > 0 {
            return n;
        }
        match read_frame(self.incoming.as_slice()) {
            Some((d, used)) => if d.len() == 0 {
                0
            } else if crate::wire::utf8_string(d).is_none() {
                0
            } else {
                frame_needed(slice_subrange(self.incoming.as_slice(), used, self.incoming.len()))
            },
            None => 0,
        }
    }

    /// Drops the first `n` received bytes.
    fn consume(&mut self, n: usize)
        requires
            n <= old(self)@.incoming.len(),
        ensures
            final(self)@ == (LinkView {
                incoming: old(self)@.incoming.subrange(n as int, old(self)@.incoming.len() as int),
                ..old(self)@
            }),
    {
        let rest = slice_to_vec(slice_subrange(self.incoming.as_slice(), n, self.incoming.len()));
        self.incoming = rest;
    }

    /// Appends one frame to the outgoing bytes; a payload too long for the
    /// 32-bit length is refused and nothing is written.
    fn push_frame(&mut self, payload: &[u8]) -> (r: core::result::Result<(), Error>)
        ensures
            payload@.len() <= u32::MAX ==> r is Ok && final(self)@ == (LinkView {
                outgoing: old(self)@.outgoing + frame(payload@),
                ..old(self)@
            }),
            payload@.len() > u32::MAX ==> (r matches Err(Error::InvalidArgument(_))) && final(self)@
                == old(self)@,
    {
        if payload.len() > u32::MAX as usize {
            return Err(Error::invalid_argument("frame longer than u32::MAX bytes"));
        }
        append_frame(&mut self.outgoing, payload);
        Ok(())
    }

    /// Sends chunk `buffer` whose payload on the wire is `payload`: the
    /// digest frame first when a checksum is in use, then the payload frame.
    /// Nothing is written when a frame would be too long.
    pub fn send_encoded(&mut self, buffer: &[u8], payload: &[u8]) -> (r: core::result::Result<
        (),
        Error,
    >)
        ensures
            payload@.len() <= u32::MAX ==> r is Ok && final(self)@ == (LinkView {
                outgoing: old(self)@.outgoing + match old(self)@.checksum {
                    None => frame(payload@),
                    Some(k) => frame(digest_bytes(k, buffer@)) + frame(payload@),
                },
                ..old(self)@
            }),
            payload@.len() > u32::MAX ==> (r matches Err(Error::InvalidArgument(_))) && final(self)@
                == old(self)@,
    {
        if payload.len() > u32::MAX as usize {
            return Err(Error::invalid_argument("frame longer than u32::MAX bytes"));
        }
        match self.checksum {
            Some(k) => {
                let digest = k.get_algo().generate(buffer);
                proof {
                    lemma_digest_bytes_len(k, buffer@);
                }
                let bytes = digest.as_str().as_bytes();
                assert(bytes@ == digest_bytes(k, buffer@));
                append_frame(&mut self.outgoing, bytes);
            },
            None => {},
        }
        append_frame(&mut self.outgoing, payload);
        assert(self@.outgoing =~= old(self)@.outgoing + match old(self)@.checksum {
            None => frame(payload@),
            Some(k) => frame(digest_bytes(k, buffer@)) + frame(payload@),
        });
        Ok(())
    }

    /// Sends one chunk: its digest, then its payload, compressed when a
    /// compression is in use. It succeeds exactly when the chunk is
    /// sendable; a codec failure or a frame too long writes nothing.
    pub fn upstream(&mut self, buffer: &[u8]) -> (r: core::result::Result<(), Error>)
        ensures
            sends(old(self)@, final(self)@, r, buffer@),
    {
        match self.compression {
            None => self.send_encoded(buffer, buffer),
            Some(k) => match k.get_algo().compress(buffer) {
                Ok(payload) => self.send_encoded(buffer, payload.as_slice()),
                Err(e) => Err(e),
            },
        }
    }

    /// Reads one chunk: the digest frame when a checksum is in use, which
    /// must be non-empty UTF-8, then the payload frame, decompressed when a
    /// compression is in use, checked against the digest.
    #[verifier::spinoff_prover]
    pub fn downstream(&mut self) -> (r: core::result::Result<Vec<u8>, Error>)
        ensures
            ({
                let (o, rest) = recv_chunk(
                    old(self)@.checksum,
                    old(self)@.compression,
                    old(self)@.incoming,
                );
                &&& final(self)@ == (LinkView { incoming: rest, ..old(self)@ })
                &&& reports(r, o)
            }),
    {
        let ghost s = self@.incoming;
        let digest: Option<(String, usize)> = match self.checksum {
            None => None,
            Some(_) => match read_frame(self.incoming.as_slice()) {
                None => return Err(Error::IO(unexpected_eof())),
                Some((d, used)) => {
                    if d.len() == 0 {
                        self.consume(used);
                        return Err(Error::integrity_error("checksum bytes not determined"));
                    }
                    match crate::wire::utf8_string(d) {
                        None => {
                            self.consume(used);
                            return Err(Error::integrity_error("unable to parse checksum bytes"));
                        },
                        Some(hash) => Some((hash, used)),
                    }
                },
            },
        };
        let start: usize = match &digest {
            None => 0,
            Some((_, used)) => *used,
        };
        let ghost r1 = s.subrange(start as int, s.len() as int);
        assert(s.subrange(0, s.len() as int) =~= s);
        assert(self.checksum is Some ==> (split_frame(s) matches Some((d, rest)) && r1 == rest
            && d.len() > 0 && valid_utf8(d)));
        let after_digest = slice_subrange(self.incoming.as_slice(), start, self.incoming.len());
        let (payload, used) = match read_frame(after_digest) {
            None => return Err(Error::IO(unexpected_eof())),
            Some(x) => x,
        };
        assert(r1.subrange(used as int, r1.len() as int) =~= s.subrange(start + used, s.len() as int));
        self.consume(start + used);
        let chunk = match self.compression {
            None => payload,
            Some(k) => match k.get_algo().decompress(payload.as_slice()) {
                Ok(c) => c,
                Err(e) => return Err(e),
            },
        };
        assert(decoded(self.compression, payload@) == Some(chunk@));
        match (self.checksum, digest) {
            (Some(k), Some((hash, _))) => if k.get_algo().valdate(chunk.as_slice(), hash.as_str()) {
                Ok(chunk)
            } else {
                Err(Error::integrity_error("checksum verification failed"))
            },
            _ => Ok(chunk),
        }
    }
}

/// What reading a file body gives: its content up to the sentinel, or
/// `None` when a chunk failed first; and the bytes after where it stopped.
pub open spec fn recv_body(
    cs: Option<ChecksumKind>,
    co: Option<CompressionKind>,
    marker: Seq<u8>,
    s: Seq<u8>,
) -> (Option<Seq<u8>>, Seq<u8>)
    decreases s.len(),
{
    let (o, rest) = recv_chunk(cs, co, s);
    match o {
        ChunkOutcome::Data(c) => if c == marker {
            (Some(Seq::empty()), rest)
        } else if rest.len() < s.len() {
            let (tail, end) = recv_body(cs, co, marker, rest);
            (
                match tail {
                    Some(t) => Some(c + t),
                    None => None,
                },
                end,
            )
        } else {
            (None, rest)
        },
        _ => (None, rest),
    }
}

/// What reading a whole file gives: its relative path, its body as
/// `recv_body` reads it, and what follows; `None` when its metadata chunk
/// fails, does not decode, or names a path outside the destination.
pub open spec fn recv_file(
    cs: Option<ChecksumKind>,
    co: Option<CompressionKind>,
    marker: Seq<u8>,
    s: Seq<u8>,
) -> Option<(Seq<char>, Option<Seq<u8>>, Seq<u8>)> {
    let (o, r1) = recv_chunk(cs, co, s);
    match o {
        ChunkOutcome::Data(m) => match parse_file_metadata(m) {
            Some(p) => if stays_inside(p) {
                let (body, r2) = recv_body(cs, co, marker, r1);
                Some((p, body, r2))
            } else {
                None
            },
            None => None,
        },
        _ => None,
    }
}

/// The wire bytes of a file body: one chunk for each `CHUNK` bytes, the last
/// one shorter when the content does not fill it.
pub open spec fn blocks_wire(cs: Option<ChecksumKind>, co: Option<CompressionKind>, c: Seq<u8>) -> Seq<
    u8,
>
    decreases c.len(),
{
    if c.len() == 0 {
        Seq::empty()
    } else if c.len() <= CHUNK {
        chunk_wire(cs, co, c)
    } else {
        chunk_wire(cs, co, c.take(CHUNK as int)) + blocks_wire(cs, co, c.skip(CHUNK as int))
    }
}

/// Every block of a file body can be sent.
pub open spec fn blocks_sendable(co: Option<CompressionKind>, c: Seq<u8>) -> bool
    decreases c.len(),
{
    if c.len() == 0 {
        true
    } else if c.len() <= CHUNK {
        sendable(co, c)
    } else {
        sendable(co, c.take(CHUNK as int)) && blocks_sendable(co, c.skip(CHUNK as int))
    }
}

/// Every chunk of a whole file can be sent: its metadata, its body and the
/// sentinel.
pub open spec fn file_sendable(
    co: Option<CompressionKind>,
    rel_path: Seq<char>,
    content: Seq<u8>,
    marker: Seq<u8>,
) -> bool {
    sendable(co, encode_file_metadata(rel_path)) && blocks_sendable(co, content) && sendable(
        co,
        marker,
    )
}

/// The wire bytes of a whole file: its metadata chunk, its body, and the
/// sentinel chunk.
pub open spec fn file_wire(
    cs: Option<ChecksumKind>,
    co: Option<CompressionKind>,
    rel_path: Seq<char>,
    content: Seq<u8>,
    marker: Seq<u8>,
) -> Seq<u8> {
    chunk_wire(cs, co, encode_file_metadata(rel_path)) + blocks_wire(cs, co, content) + chunk_wire(
        cs,
        co,
        marker,
    )
}

/// A received file as values: its relative path and its content.
pub type FileView = (Seq<char>, Option<Seq<u8>>);

/// `o` with `prefix` put in front of the files it holds.
pub open spec fn prepend_files(prefix: Seq<FileView>, o: Option<(Seq<FileView>, Seq<u8>)>) -> Option<
    (Seq<FileView>, Seq<u8>),
> {
    match o {
        Some((fs, rest)) => Some((prefix + fs, rest)),
        None => None,
    }
}

/// What reading `n` files one after another from `s` gives: each file as
/// `recv_file` reads it, and what follows the last; `None` when one of them
/// fails before its body.
pub open spec fn recv_files(
    cs: Option<ChecksumKind>,
    co: Option<CompressionKind>,
    marker: Seq<u8>,
    s: Seq<u8>,
    n: nat,
) -> Option<(Seq<FileView>, Seq<u8>)>
    decreases n,
{
    if n == 0 {
        Some((Seq::empty(), s))
    } else {
        match recv_file(cs, co, marker, s) {
            None => None,
            Some((p, body, r1)) => prepend_files(
                seq![(p, body)],
                recv_files(cs, co, marker, r1, (n - 1) as nat),
            ),
        }
    }
}

/// A received file: where it goes, and its content, or `None` when a chunk
/// failed and whatever was written of it must be removed.
pub struct ReceivedFile {
    pub rel_path: String,
    pub content: Option<Vec<u8>>,
}

/// What one step of reading a file body gives.
pub enum Block {
    /// Bytes to append to the file.
    Data(Vec<u8>),
    /// The sentinel: the file is complete.
    End,
    /// A chunk failed: the file is to be removed.
    Failed(Error),
}

pub open spec fn opt_view(o: Option<Vec<u8>>) -> Option<Seq<u8>> {
    match o {
        Some(v) => Some(v@),
        None => None,
    }
}

/// Received files as values.
pub open spec fn files_view(files: Seq<ReceivedFile>) -> Seq<FileView> {
    Seq::new(files.len(), |i: int| (files[i].rel_path@, opt_view(files[i].content)))
}

impl Link {
    /// Reads one raw frame.
    fn read_raw(&mut self) -> (r: core::result::Result<Vec<u8>, Error>)
        ensures
            match split_frame(old(self)@.incoming) {
                None => (r matches Err(Error::IO(_))) && final(self)@ == old(self)@,
                Some((p, rest)) => (r matches Ok(v) && v@ == p) && final(self)@ == (LinkView {
                    incoming: rest,
                    ..old(self)@
                }),
            },
    {
        match read_frame(self.incoming.as_slice()) {
            None => Err(Error::IO(unexpected_eof())),
            Some((p, used)) => {
                self.consume(used);
                Ok(p)
            },
        }
    }

    /// Reads the role a client declares, as one raw frame.
    pub fn read_role(&mut self) -> (r: core::result::Result<Role, Error>)
        ensures
            match split_frame(old(self)@.incoming) {
                None => (r matches Err(Error::IO(_))) && final(self)@ == old(self)@,
                Some((p, rest)) => final(self)@ == (LinkView { incoming: rest, ..old(self)@ })
                    && match parse_role(p) {
                    Some(role) => r matches Ok(x) && x == role,
                    None => r matches Err(Error::Deserialize),
                },
            },
    {
        let bytes = self.read_raw()?;
        Role::from_bytes(bytes.as_slice())
    }

    /// Reads upload metadata, as one raw frame, and adopts the compression
    /// and checksum it declares.
    pub fn read_upload_metadata(&mut self) -> (r: core::result::Result<UploadMetadata, Error>)
        ensures
            match split_frame(old(self)@.incoming) {
                None => (r matches Err(Error::IO(_))) && final(self)@ == old(self)@,
                Some((p, rest)) => match parse_upload(p) {
                    Some(v) => (r matches Ok(m) && m@ == v) && final(self)@ == (LinkView {
                        incoming: rest,
                        compression: v.compression,
                        checksum: v.checksum,
                        ..old(self)@
                    }),
                    None => (r matches Err(Error::Deserialize)) && final(self)@ == (LinkView {
                        incoming: rest,
                        ..old(self)@
                    }),
                },
            },
    {
        let bytes = self.read_raw()?;
        let m = UploadMetadata::from_bytes(bytes.as_slice())?;
        self.compression = m.compression;
        self.checksum = m.checksum;
        Ok(m)
    }

    /// Reads download metadata, as one raw frame, and adopts the compression
    /// and checksum it declares.
    pub fn read_download_metadata(&mut self) -> (r: core::result::Result<DownloadMetadata, Error>)
        ensures
            match split_frame(old(self)@.incoming) {
                None => (r matches Err(Error::IO(_))) && final(self)@ == old(self)@,
                Some((p, rest)) => match parse_download(p) {
                    Some(v) => (r matches Ok(m) && m@ == v) && final(self)@ == (LinkView {
                        incoming: rest,
                        compression: v.compression,
                        checksum: v.checksum,
                        ..old(self)@
                    }),
                    None => (r matches Err(Error::Deserialize)) && final(self)@ == (LinkView {
                        incoming: rest,
                        ..old(self)@
                    }),
                },
            },
    {
        let bytes = self.read_raw()?;
        let m = DownloadMetadata::from_bytes(bytes.as_slice())?;
        self.compression = m.compression;
        self.checksum = m.checksum;
        Ok(m)
    }

    /// Reads a server's answer to a download request, as one chunk.
    pub fn read_result(&mut self) -> (r: core::result::Result<Answer, Error>)
        ensures
            ({
                let (o, rest) = recv_chunk(
                    old(self)@.checksum,
                    old(self)@.compression,
                    old(self)@.incoming,
                );
                &&& final(self)@ == (LinkView { incoming: rest, ..old(self)@ })
                &&& match o {
                    ChunkOutcome::Data(c) => match parse_result(c) {
                        Some(v) => r matches Ok(m) && m@ == v,
                        None => r matches Err(Error::Deserialize),
                    },
                    _ => r is Err,
                }
            }),
    {
        let bytes = self.downstream()?;
        Answer::from_bytes(bytes.as_slice())
    }

    /// Reads the metadata chunk that opens a file, and refuses a path that
    /// would leave the destination directory.
    pub fn read_file_metadata(&mut self) -> (r: core::result::Result<FileMetadata, Error>)
        ensures
            ({
                let (o, rest) = recv_chunk(
                    old(self)@.checksum,
                    old(self)@.compression,
                    old(self)@.incoming,
                );
                &&& final(self)@ == (LinkView { incoming: rest, ..old(self)@ })
                &&& match o {
                    ChunkOutcome::Data(c) => match parse_file_metadata(c) {
                        Some(p) => if stays_inside(p) {
                            r matches Ok(m) && m@ == p
                        } else {
                            r matches Err(Error::InvalidRequest(_))
                        },
                        None => r matches Err(Error::Deserialize),
                    },
                    _ => r is Err,
                }
            }),
    {
        let bytes = self.downstream()?;
        let m = FileMetadata::from_bytes(bytes.as_slice())?;
        if !is_contained(m.rel_path.as_str()) {
            return Err(Error::invalid_request("file path leaves the destination directory"));
        }
        Ok(m)
    }

    /// Writes the role this client asks the server to take, as one raw frame.
    pub fn write_role(&mut self, role: Role) -> (r: core::result::Result<(), Error>)
        ensures
            r is Ok,
            final(self)@ == (LinkView {
                outgoing: old(self)@.outgoing + frame(encode_role(role)),
                ..old(self)@
            }),
    {
        let bytes = role.to_bytes();
        proof {
            crate::wire::lemma_u32(crate::message::role_tag(role), Seq::empty());
        }
        self.push_frame(bytes.as_slice())
    }

    /// Writes upload metadata for `count` files bound for `destination`,
    /// declaring this link's codecs and sentinel, as one raw frame.
    pub fn write_upload_metadata(&mut self, count: usize, destination: &str) -> (r:
        core::result::Result<(), Error>)
        requires
            count <= u32::MAX,
        ensures
            ({
                let b = encode_upload(
                    UploadMetadataView {
                        count: count as u32,
                        destination: destination@,
                        eof_marker: old(self)@.marker,
                        compression: old(self)@.compression,
                        checksum: old(self)@.checksum,
                    },
                );
                &&& b.len() <= u32::MAX ==> r is Ok && final(self)@ == (LinkView {
                    outgoing: old(self)@.outgoing + frame(b),
                    ..old(self)@
                })
                &&& b.len() > u32::MAX ==> (r matches Err(Error::InvalidArgument(_)))
                    && final(self)@ == old(self)@
            }),
    {
        let m = UploadMetadata::new(count as u32, destination, self.marker.as_slice()).with_compression(
            self.compression,
        ).with_checksum(self.checksum);
        let bytes = m.to_bytes();
        self.push_frame(bytes.as_slice())
    }

    /// Writes a download request for `destination`, declaring this link's
    /// codecs, as one raw frame.
    pub fn write_download_metadata(&mut self, destination: &str) -> (r: core::result::Result<
        (),
        Error,
    >)
        ensures
            ({
                let b = encode_download(
                    DownloadMetadataView {
                        destination: destination@,
                        compression: old(self)@.compression,
                        checksum: old(self)@.checksum,
                    },
                );
                &&& b.len() <= u32::MAX ==> r is Ok && final(self)@ == (LinkView {
                    outgoing: old(self)@.outgoing + frame(b),
                    ..old(self)@
                })
                &&& b.len() > u32::MAX ==> (r matches Err(Error::InvalidArgument(_)))
                    && final(self)@ == old(self)@
            }),
    {
        let m = DownloadMetadata::new(destination).with_compression(self.compression).with_checksum(
            self.checksum,
        );
        let bytes = m.to_bytes();
        self.push_frame(bytes.as_slice())
    }

    /// Writes the metadata chunk that opens a file.
    pub fn write_file_metadata(&mut self, rel_path: &str) -> (r: core::result::Result<(), Error>)
        ensures
            sends(old(self)@, final(self)@, r, encode_file_metadata(rel_path@)),
    {
        let bytes = FileMetadata::new(rel_path).to_bytes();
        self.upstream(bytes.as_slice())
    }

    /// Answers a download request with an error, as one chunk.
    pub fn write_err_result(&mut self, msg: String) -> (r: core::result::Result<(), Error>)
        ensures
            sends(old(self)@, final(self)@, r, encode_result(ResultView::Failure(msg@))),
    {
        let bytes = Answer::Failure(msg).to_bytes();
        self.upstream(bytes.as_slice())
    }

    /// Answers a download request: `count` files follow, each closed by this
    /// link's sentinel, as one chunk.
    pub fn write_ok_result(&mut self, count: usize) -> (r: core::result::Result<(), Error>)
        requires
            count <= u32::MAX,
        ensures
            sends(
                old(self)@,
                final(self)@,
                r,
                encode_result(ResultView::Marker { count: count as u32, marker: old(self)@.marker }),
            ),
    {
        let answer = Answer::Marker {
            count: count as u32,
            marker: slice_to_vec(self.marker.as_slice()),
        };
        let bytes = answer.to_bytes();
        self.upstream(bytes.as_slice())
    }
}

/// `o` with `c` put in front of the content it holds.
pub open spec fn prepend(c: Seq<u8>, o: Option<Seq<u8>>) -> Option<Seq<u8>> {
    match o {
        Some(t) => Some(c + t),
        None => None,
    }
}

/// The message that answers a request for a path that is neither a file
/// nor a directory.
pub open spec fn invalid_path_text(requested: Seq<char>) -> Seq<char> {
    "Path \""@ + requested + "\" invalid"@
}

/// Whether two byte strings are equal.
fn bytes_eq(a: &[u8], b: &[u8]) -> (r: bool)
    ensures
        r == (a@ == b@),
{
    if a.len() != b.len() {
        return false;
    }
    let mut i: usize = 0;
    while i < a.len()
        invariant
            i <= a@.len(),
            a@.len() == b@.len(),
            forall|k: int| 0 <= k < i ==> a@[k] == b@[k],
        decreases a@.len() - i,
    {
        if a[i] != b[i] {
            return false;
        }
        i = i + 1;
    }
    assert(a@ =~= b@);
    true
}

proof fn lemma_recv_chunk_progress(cs: Option<ChecksumKind>, co: Option<CompressionKind>, s: Seq<u8>)
    ensures
        !(recv_chunk(cs, co, s).0 is Short) ==> recv_chunk(cs, co, s).1.len() < s.len(),
{
}

/// The message for a request whose path is neither a file nor a directory.
pub fn invalid_path_message(requested: &str) -> (r: String)
    ensures
        r@ == invalid_path_text(requested@),
{
    let mut s = "Path \"".to_owned();
    s.append(requested);
    s.append("\" invalid");
    s
}

impl Link {
    /// Sends one file: its metadata chunk, its content in chunks of `CHUNK`
    /// bytes (the last one as long as what is left), then this link's
    /// sentinel. It succeeds exactly when each of those chunks is sendable.
    #[verifier::spinoff_prover]
    pub fn write_to_stream(&mut self, content: &[u8], rel_path: &str) -> (r: core::result::Result<
        (),
        Error,
    >)
        ensures
            final(self)@ == (LinkView { outgoing: final(self)@.outgoing, ..old(self)@ }),
            r is Ok ==> final(self)@.outgoing == old(self)@.outgoing + file_wire(
                old(self)@.checksum,
                old(self)@.compression,
                rel_path@,
                content@,
                old(self)@.marker,
            ),
            r is Ok <==> file_sendable(
                old(self)@.compression,
                rel_path@,
                content@,
                old(self)@.marker,
            ),
            r matches Err(e) ==> e is IO || e is InvalidArgument,
    {
        let ghost cs = self@.checksum;
        let ghost co = self@.compression;
        match self.write_file_metadata(rel_path) {
            Ok(()) => {},
            Err(e) => return Err(e),
        }
        let ghost start = self@.outgoing;
        let mut pos: usize = 0;
        assert(content@.skip(0) =~= content@);
        while pos < content.len()
            invariant
                pos <= content@.len(),
                self@ == (LinkView { outgoing: self@.outgoing, ..old(self)@ }),
                cs == old(self)@.checksum,
                co == old(self)@.compression,
                self@.outgoing + blocks_wire(cs, co, content@.skip(pos as int)) == start + blocks_wire(
                    cs,
                    co,
                    content@,
                ),
                sendable(co, encode_file_metadata(rel_path@)),
                blocks_sendable(co, content@) == blocks_sendable(co, content@.skip(pos as int)),
            decreases content@.len() - pos,
        {
            let end = if content.len() - pos <= CHUNK {
                content.len()
            } else {
                pos + CHUNK
            };
            let block = slice_subrange(content, pos, end);
            let ghost c = content@.skip(pos as int);
            let ghost before = self@.outgoing;
            if end == content.len() {
                assert(block@ =~= c);
                assert(content@.skip(end as int) =~= Seq::<u8>::empty());
            } else {
                assert(block@ =~= c.take(CHUNK as int));
                assert(c.skip(CHUNK as int) =~= content@.skip(end as int));
            }
            match self.upstream(block) {
                Ok(()) => {},
                Err(e) => return Err(e),
            }
            assert(self@.outgoing + blocks_wire(cs, co, content@.skip(end as int)) =~= before
                + blocks_wire(cs, co, c));
            pos = end;
        }
        let marker = slice_to_vec(self.marker.as_slice());
        let r = self.upstream(marker.as_slice());
        assert(r is Ok ==> self@.outgoing =~= old(self)@.outgoing + file_wire(
            cs,
            co,
            rel_path@,
            content@,
            old(self)@.marker,
        ));
        r
    }

    /// Sends one step of a file body read from disk: a block of file bytes,
    /// or, when `block` is empty because the file has ended, this link's
    /// sentinel.
    pub fn send_block(&mut self, block: &[u8]) -> (r: core::result::Result<(), Error>)
        ensures
            sends(
                old(self)@,
                final(self)@,
                r,
                if block@.len() == 0 {
                    old(self)@.marker
                } else {
                    block@
                },
            ),
    {
        if block.len() == 0 {
            let marker = slice_to_vec(self.marker.as_slice());
            self.upstream(marker.as_slice())
        } else {
            self.upstream(block)
        }
    }

    /// Reads one chunk of a file body and says what to do with it.
    pub fn receive_block(&mut self, marker: &[u8]) -> (r: Block)
        ensures
            ({
                let (o, rest) = recv_chunk(
                    old(self)@.checksum,
                    old(self)@.compression,
                    old(self)@.incoming,
                );
                &&& final(self)@ == (LinkView { incoming: rest, ..old(self)@ })
                &&& match o {
                    ChunkOutcome::Data(c) => if c == marker@ {
                        r is End
                    } else {
                        r matches Block::Data(v) && v@ == c
                    },
                    _ => r is Failed,
                }
            }),
    {
        match self.downstream() {
            Ok(b) => if bytes_eq(b.as_slice(), marker) {
                Block::End
            } else {
                Block::Data(b)
            },
            Err(e) => Block::Failed(e),
        }
    }

    /// Receives one file: its metadata, then its chunks up to the sentinel
    /// `marker`. A chunk that fails ends the file with no content, and the
    /// session goes on; a failure in the metadata chunk is an error.
    #[verifier::spinoff_prover]
    pub fn read_from_stream(&mut self, marker: &[u8]) -> (r: core::result::Result<
        ReceivedFile,
        Error,
    >)
        ensures
            final(self)@ == (LinkView { incoming: final(self)@.incoming, ..old(self)@ }),
            match recv_file(old(self)@.checksum, old(self)@.compression, marker@, old(self)@.incoming) {
                Some((p, body, rest)) => (r matches Ok(f) && f.rel_path@ == p && opt_view(f.content)
                    == body) && final(self)@.incoming == rest,
                None => r is Err,
            },
            match recv_chunk(
                old(self)@.checksum,
                old(self)@.compression,
                old(self)@.incoming,
            ).0 {
                ChunkOutcome::Data(c) => match parse_file_metadata(c) {
                    Some(p) => !stays_inside(p) ==> (r matches Err(Error::InvalidRequest(_))),
                    None => r matches Err(Error::Deserialize),
                },
                _ => r is Err,
            },
    {
        let ghost cs = self@.checksum;
        let ghost co = self@.compression;
        let meta = match self.read_file_metadata() {
            Ok(m) => m,
            Err(e) => return Err(e),
        };
        let ghost s1 = self@.incoming;
        assert(recv_file(cs, co, marker@, old(self)@.incoming) == Some(
            (meta@, recv_body(cs, co, marker@, s1).0, recv_body(cs, co, marker@, s1).1),
        ));
        let mut content: Vec<u8> = Vec::new();
        assert(content@ + recv_body(cs, co, marker@, s1).0->0 =~= recv_body(cs, co, marker@, s1).0->0);
        assert(prepend(content@, recv_body(cs, co, marker@, s1).0) == recv_body(cs, co, marker@, s1).0);
        loop
            invariant
                self@ == (LinkView { incoming: self@.incoming, ..old(self)@ }),
                cs == old(self)@.checksum,
                co == old(self)@.compression,
                recv_file(cs, co, marker@, old(self)@.incoming) == Some(
                    (meta@, recv_body(cs, co, marker@, s1).0, recv_body(cs, co, marker@, s1).1),
                ),
                recv_body(cs, co, marker@, s1) == (
                    prepend(content@, recv_body(cs, co, marker@, self@.incoming).0),
                    recv_body(cs, co, marker@, self@.incoming).1,
                ),
            decreases self@.incoming.len(),
        {
            let ghost s = self@.incoming;
            proof {
                lemma_recv_chunk_progress(cs, co, s);
            }
            match self.receive_block(marker) {
                Block::Data(d) => {
                    proof {
                        let tail = recv_body(cs, co, marker@, self@.incoming).0;
                        if let Some(t) = tail {
                            assert(content@ + (d@ + t) =~= (content@ + d@) + t);
                        }
                    }
                    append_bytes(&mut content, d.as_slice());
                },
                Block::End => {
                    assert(content@ + Seq::<u8>::empty() =~= content@);
                    return Ok(ReceivedFile { rel_path: meta.rel_path, content: Some(content) });
                },
                Block::Failed(_) => {
                    return Ok(ReceivedFile { rel_path: meta.rel_path, content: None });
                },
            }
        }
    }

    /// Receives `count` files, each closed by `marker`. It succeeds exactly
    /// when each file's metadata chunk reads as a contained path, and gives
    /// the files `recv_files` reads.
    #[verifier::spinoff_prover]
    pub fn read_files(&mut self, count: u32, marker: &[u8]) -> (r: core::result::Result<
        Vec<ReceivedFile>,
        Error,
    >)
        ensures
            final(self)@ == (LinkView { incoming: final(self)@.incoming, ..old(self)@ }),
            r matches Ok(files) ==> files.len() == count,
            match recv_files(
                old(self)@.checksum,
                old(self)@.compression,
                marker@,
                old(self)@.incoming,
                count as nat,
            ) {
                Some((fs, rest)) => (r matches Ok(files) && files_view(files@) == fs)
                    && final(self)@.incoming == rest,
                None => r is Err,
            },
    {
        let ghost cs = self@.checksum;
        let ghost co = self@.compression;
        let mut files: Vec<ReceivedFile> = Vec::new();
        let mut i: u32 = 0;
        proof {
            if let Some((fs, _)) = recv_files(cs, co, marker@, self@.incoming, count as nat) {
                assert(files_view(files@) + fs =~= fs);
            }
        }
        while i < count
            invariant
                i <= count,
                files.len() == i,
                self@ == (LinkView { incoming: self@.incoming, ..old(self)@ }),
                cs == old(self)@.checksum,
                co == old(self)@.compression,
                recv_files(cs, co, marker@, old(self)@.incoming, count as nat) == prepend_files(
                    files_view(files@),
                    recv_files(cs, co, marker@, self@.incoming, (count - i) as nat),
                ),
            decreases count - i,
        {
            let ghost before = files_view(files@);
            let ghost s = self@.incoming;
            match self.read_from_stream(marker) {
                Ok(f) => {
                    let ghost fv = (f.rel_path@, opt_view(f.content));
                    files.push(f);
                    proof {
                        assert(files_view(files@) =~= before + seq![fv]);
                        let tail = recv_files(cs, co, marker@, self@.incoming, (count - i - 1) as nat);
                        if let Some((fs, rest)) = tail {
                            assert(before + (seq![fv] + fs) =~= (before + seq![fv]) + fs);
                        }
                    }
                },
                Err(e) => return Err(e),
            }
            i = i + 1;
        }
        Ok(files)
    }

    /// Serves a client that pushes files: reads its upload metadata, adopts
    /// its codecs, and receives exactly the files it announces.
    pub fn serve_sink(&mut self) -> (r: core::result::Result<(UploadMetadata, Vec<ReceivedFile>), Error>)
        ensures
            r matches Ok((m, files)) ==> (files.len() == m.count && (split_frame(
                old(self)@.incoming,
            ) matches Some((p, _)) && parse_upload(p) == Some(m@))),
            match split_frame(old(self)@.incoming) {
                None => r matches Err(Error::IO(_)),
                Some((p, rest)) => match parse_upload(p) {
                    None => r matches Err(Error::Deserialize),
                    Some(v) => match recv_files(
                        v.checksum,
                        v.compression,
                        v.eof_marker,
                        rest,
                        v.count as nat,
                    ) {
                        Some((fs, end)) => (r matches Ok((m, files)) && m@ == v && files_view(files@)
                            == fs) && final(self)@.incoming == end,
                        None => r is Err,
                    },
                },
            },
    {
        let m = match self.read_upload_metadata() {
            Ok(m) => m,
            Err(e) => return Err(e),
        };
        match self.read_files(m.count, m.eof_marker.as_slice()) {
            Ok(files) => Ok((m, files)),
            Err(e) => Err(e),
        }
    }

    /// Answers a download request: the number of files that follow, or,
    /// when the requested path is neither a file nor a directory, an error
    /// naming it.
    pub fn answer_download(&mut self, requested: &str, file_count: Option<usize>) -> (r:
        core::result::Result<(), Error>)
        requires
            file_count matches Some(n) ==> n <= u32::MAX,
        ensures
            sends(
                old(self)@,
                final(self)@,
                r,
                encode_result(
                    match file_count {
                        Some(n) => ResultView::Marker { count: n as u32, marker: old(self)@.marker },
                        None => ResultView::Failure(invalid_path_text(requested@)),
                    },
                ),
            ),
    {
        match file_count {
            Some(n) => self.write_ok_result(n),
            None => self.write_err_result(invalid_path_message(requested)),
        }
    }

    /// Completes a download on the requesting side: reads the server's
    /// answer, reports its error as a `DownloadError`, or receives exactly
    /// the files it announces.
    pub fn receive_download(&mut self) -> (r: core::result::Result<Vec<ReceivedFile>, Error>)
        ensures
            ({
                let (o, rest) = recv_chunk(
                    old(self)@.checksum,
                    old(self)@.compression,
                    old(self)@.incoming,
                );
                &&& r matches Ok(files) ==> match o {
                    ChunkOutcome::Data(c) => match parse_result(c) {
                        Some(ResultView::Marker { count, .. }) => files.len() == count,
                        _ => false,
                    },
                    _ => false,
                }
                &&& match o {
                    ChunkOutcome::Data(c) => match parse_result(c) {
                        Some(ResultView::Marker { count, marker }) => match recv_files(
                            old(self)@.checksum,
                            old(self)@.compression,
                            marker,
                            rest,
                            count as nat,
                        ) {
                            Some((fs, end)) => (r matches Ok(files) && files_view(files@) == fs)
                                && final(self)@.incoming == end,
                            None => r is Err,
                        },
                        Some(ResultView::Failure(msg)) => r matches Err(Error::DownloadError(m))
                            && m@ == msg,
                        None => r matches Err(Error::Deserialize),
                    },
                    _ => r is Err,
                }
            }),
    {
        match self.read_result() {
            Ok(Answer::Marker { count, marker }) => self.read_files(count, marker.as_slice()),
            Ok(Answer::Failure(msg)) => Err(Error::DownloadError(msg)),
            Err(e) => Err(e),
        }
    }
}

// ---- laws ---------------------------------------------------------------------

/// Every `CHUNK`-sized block of `c` that a receiver compares with the
/// sentinel differs from `marker`.
pub open spec fn blocks_avoid(c: Seq<u8>, marker: Seq<u8>) -> bool
    decreases c.len(),
{
    if c.len() == 0 {
        true
    } else if c.len() <= CHUNK {
        c != marker
    } else {
        c.take(CHUNK as int) != marker && blocks_avoid(c.skip(CHUNK as int), marker)
    }
}

/// The outcome of the `k`-th chunk read from `s`, counting from zero.
pub open spec fn nth_chunk(
    cs: Option<ChecksumKind>,
    co: Option<CompressionKind>,
    s: Seq<u8>,
    k: nat,
) -> ChunkOutcome
    decreases k,
{
    let (o, rest) = recv_chunk(cs, co, s);
    if k == 0 {
        o
    } else {
        nth_chunk(cs, co, rest, (k - 1) as nat)
    }
}

/// The codec gives `b` back after compressing it, and its compressed form
/// fits a frame.
pub open spec fn restores(co: Option<CompressionKind>, b: Seq<u8>) -> bool {
    encoded(co, b) matches Some(p) && p.len() <= u32::MAX && decoded(co, p) == Some(b)
}

/// Every `CHUNK`-sized block of `c` differs from `marker` and comes back
/// unchanged through the codec.
pub open spec fn blocks_carried(co: Option<CompressionKind>, c: Seq<u8>, marker: Seq<u8>) -> bool
    decreases c.len(),
{
    if c.len() == 0 {
        true
    } else if c.len() <= CHUNK {
        c != marker && restores(co, c)
    } else {
        c.take(CHUNK as int) != marker && restores(co, c.take(CHUNK as int)) && blocks_carried(
            co,
            c.skip(CHUNK as int),
            marker,
        )
    }
}

/// A chunk that the codec restores is read back as itself, whatever follows
/// it; with a checksum, the receiver accepts the digest the sender computed.
pub proof fn lemma_chunk_round_trip(
    cs: Option<ChecksumKind>,
    co: Option<CompressionKind>,
    b: Seq<u8>,
    rest: Seq<u8>,
)
    requires
        restores(co, b),
    ensures
        recv_chunk(cs, co, chunk_wire(cs, co, b) + rest) == (ChunkOutcome::Data(b), rest),
        chunk_wire(cs, co, b).len() > 0,
{
    let p = payload(co, b);
    lemma_frame_round_trip(p, rest);
    match cs {
        None => {},
        Some(k) => {
            lemma_digest_bytes_len(k, b);
            let d = digest_bytes(k, b);
            assert(chunk_wire(cs, co, b) + rest =~= frame(d) + (frame(p) + rest));
            lemma_frame_round_trip(d, frame(p) + rest);
            encode_utf8_valid_utf8(checksum_hex(k, b));
            encode_utf8_decode_utf8(checksum_hex(k, b));
        },
    }
}

proof fn lemma_body_step(
    cs: Option<ChecksumKind>,
    co: Option<CompressionKind>,
    marker: Seq<u8>,
    s: Seq<u8>,
    c: Seq<u8>,
    rest: Seq<u8>,
)
    requires
        recv_chunk(cs, co, s) == (ChunkOutcome::Data(c), rest),
        rest.len() < s.len(),
    ensures
        recv_body(cs, co, marker, s) == if c == marker {
            (Some(Seq::<u8>::empty()), rest)
        } else {
            (prepend(c, recv_body(cs, co, marker, rest).0), recv_body(cs, co, marker, rest).1)
        },
{
}

proof fn lemma_last_block(
    cs: Option<ChecksumKind>,
    co: Option<CompressionKind>,
    c: Seq<u8>,
    marker: Seq<u8>,
    rest: Seq<u8>,
)
    requires
        0 < c.len() <= CHUNK,
        c != marker,
        restores(co, c),
        recv_body(cs, co, marker, chunk_wire(cs, co, marker) + rest) == (Some(Seq::<u8>::empty()), rest),
    ensures
        recv_body(cs, co, marker, chunk_wire(cs, co, c) + (chunk_wire(cs, co, marker) + rest)) == (
            Some(c),
            rest,
        ),
{
    let r1 = chunk_wire(cs, co, marker) + rest;
    let s = chunk_wire(cs, co, c) + r1;
    lemma_chunk_round_trip(cs, co, c, r1);
    lemma_body_step(cs, co, marker, s, c, r1);
    assert(c + Seq::<u8>::empty() =~= c);
}

proof fn lemma_next_block(
    cs: Option<ChecksumKind>,
    co: Option<CompressionKind>,
    block: Seq<u8>,
    tail: Seq<u8>,
    marker: Seq<u8>,
    r1: Seq<u8>,
    rest: Seq<u8>,
)
    requires
        block != marker,
        restores(co, block),
        recv_body(cs, co, marker, r1) == (Some(tail), rest),
    ensures
        recv_body(cs, co, marker, chunk_wire(cs, co, block) + r1) == (Some(block + tail), rest),
{
    let s = chunk_wire(cs, co, block) + r1;
    lemma_chunk_round_trip(cs, co, block, r1);
    lemma_body_step(cs, co, marker, s, block, r1);
}

#[verifier::spinoff_prover]
proof fn lemma_body_round_trip(
    cs: Option<ChecksumKind>,
    co: Option<CompressionKind>,
    c: Seq<u8>,
    marker: Seq<u8>,
    rest: Seq<u8>,
)
    requires
        blocks_carried(co, c, marker),
        restores(co, marker),
    ensures
        recv_body(cs, co, marker, blocks_wire(cs, co, c) + chunk_wire(cs, co, marker) + rest) == (
            Some(c),
            rest,
        ),
    decreases c.len(),
{
    let mw = chunk_wire(cs, co, marker);
    lemma_chunk_round_trip(cs, co, marker, rest);
    lemma_body_step(cs, co, marker, mw + rest, marker, rest);
    if c.len() == 0 {
        assert(blocks_wire(cs, co, c) + mw + rest =~= mw + rest);
        assert(c =~= Seq::<u8>::empty());
    } else if c.len() <= CHUNK {
        assert(blocks_wire(cs, co, c) + mw + rest =~= chunk_wire(cs, co, c) + (mw + rest));
        lemma_last_block(cs, co, c, marker, rest);
    } else {
        let block = c.take(CHUNK as int);
        let tail = c.skip(CHUNK as int);
        let r1 = blocks_wire(cs, co, tail) + mw + rest;
        assert(blocks_wire(cs, co, c) + mw + rest =~= chunk_wire(cs, co, block) + r1);
        lemma_body_round_trip(cs, co, tail, marker, rest);
        lemma_next_block(cs, co, block, tail, marker, r1, rest);
        assert(block + tail =~= c);
    }
}

/// A file arrives byte for byte, with its path, under any checksum, through
/// a codec that restores each of its chunks; the bytes after it are left for
/// what follows.
#[verifier::spinoff_prover]
pub proof fn lemma_file_round_trip_through_codec(
    cs: Option<ChecksumKind>,
    co: Option<CompressionKind>,
    rel_path: Seq<char>,
    content: Seq<u8>,
    marker: Seq<u8>,
    rest: Seq<u8>,
)
    requires
        stays_inside(rel_path),
        str_fits(rel_path),
        restores(co, encode_file_metadata(rel_path)),
        restores(co, marker),
        blocks_carried(co, content, marker),
    ensures
        recv_file(cs, co, marker, file_wire(cs, co, rel_path, content, marker) + rest) == Some(
            (rel_path, Some(content), rest),
        ),
{
    let m = encode_file_metadata(rel_path);
    let r1 = blocks_wire(cs, co, content) + chunk_wire(cs, co, marker) + rest;
    let s = file_wire(cs, co, rel_path, content, marker) + rest;
    assert(s =~= chunk_wire(cs, co, m) + r1);
    lemma_chunk_round_trip(cs, co, m, r1);
    assert(recv_chunk(cs, co, s) == (ChunkOutcome::Data(m), r1));
    lemma_file_metadata_round_trip(rel_path);
    assert(parse_file_metadata(m) == Some(rel_path));
    lemma_body_round_trip(cs, co, content, marker, rest);
    assert(recv_body(cs, co, marker, r1) == (Some(content), rest));
}

/// The wire bytes of `chunks` sent one after another.
pub open spec fn chunks_wire(
    cs: Option<ChecksumKind>,
    co: Option<CompressionKind>,
    chunks: Seq<Seq<u8>>,
) -> Seq<u8>
    decreases chunks.len(),
{
    if chunks.len() == 0 {
        Seq::empty()
    } else {
        chunk_wire(cs, co, chunks[0]) + chunks_wire(cs, co, chunks.drop_first())
    }
}

/// A body sent as any chunks, each different from the sentinel after
/// decoding and each restored by the codec, is read back as their
/// concatenation: the end of a file is only a decoded chunk equal to the
/// sentinel, so the sentinel's bytes inside a chunk, or a compressed payload
/// equal to it, end nothing.
#[verifier::spinoff_prover]
pub proof fn lemma_chunks_round_trip(
    cs: Option<ChecksumKind>,
    co: Option<CompressionKind>,
    chunks: Seq<Seq<u8>>,
    marker: Seq<u8>,
    rest: Seq<u8>,
)
    requires
        forall|i: int| 0 <= i < chunks.len() ==> #[trigger] chunks[i] != marker && restores(co, chunks[i]),
        restores(co, marker),
    ensures
        recv_body(cs, co, marker, chunks_wire(cs, co, chunks) + chunk_wire(cs, co, marker) + rest)
            == (Some(chunks.flatten()), rest),
    decreases chunks.len(),
{
    let mw = chunk_wire(cs, co, marker);
    lemma_chunk_round_trip(cs, co, marker, rest);
    lemma_body_step(cs, co, marker, mw + rest, marker, rest);
    if chunks.len() == 0 {
        assert(chunks_wire(cs, co, chunks) + mw + rest =~= mw + rest);
    } else {
        let c = chunks[0];
        let tail = chunks.drop_first();
        assert forall|i: int| 0 <= i < tail.len() implies #[trigger] tail[i] != marker && restores(co, tail[i]) by {
            assert(tail[i] == chunks[i + 1]);
        }
        let r1 = chunks_wire(cs, co, tail) + mw + rest;
        assert(chunks_wire(cs, co, chunks) + mw + rest =~= chunk_wire(cs, co, c) + r1);
        lemma_chunks_round_trip(cs, co, tail, marker, rest);
        lemma_next_block(cs, co, c, tail.flatten(), marker, r1, rest);
    }
}

proof fn lemma_plain_blocks_carried(c: Seq<u8>, marker: Seq<u8>)
    requires
        blocks_avoid(c, marker),
    ensures
        blocks_carried(None, c, marker),
    decreases c.len(),
{
    if c.len() > CHUNK {
        lemma_plain_blocks_carried(c.skip(CHUNK as int), marker);
    }
}

/// A file sent without compression arrives byte for byte, with its path,
/// under any checksum, and the bytes after it are left for what follows.
/// Content that holds the sentinel's bytes anywhere but as one whole
/// `CHUNK`-aligned block is carried like any other content.
pub proof fn lemma_file_round_trip(
    cs: Option<ChecksumKind>,
    rel_path: Seq<char>,
    content: Seq<u8>,
    marker: Seq<u8>,
    rest: Seq<u8>,
)
    requires
        stays_inside(rel_path),
        str_fits(rel_path),
        encode_file_metadata(rel_path).len() <= u32::MAX,
        marker.len() <= u32::MAX,
        blocks_avoid(content, marker),
    ensures
        recv_file(cs, None, marker, file_wire(cs, None, rel_path, content, marker) + rest) == Some(
            (rel_path, Some(content), rest),
        ),
{
    lemma_plain_blocks_carried(content, marker);
    lemma_file_round_trip_through_codec(cs, None, rel_path, content, marker, rest);
}

/// When the `k`-th chunk of a file body fails its integrity check, after
/// data chunks that were not the sentinel, the body is discarded whole.
#[verifier::spinoff_prover]
pub proof fn lemma_failed_chunk_discards_body(
    cs: Option<ChecksumKind>,
    co: Option<CompressionKind>,
    marker: Seq<u8>,
    s: Seq<u8>,
    k: nat,
)
    requires
        forall|j: nat|
            j < k ==> (#[trigger] nth_chunk(cs, co, s, j) matches ChunkOutcome::Data(c) && c != marker),
        nth_chunk(cs, co, s, k) is NoDigest || nth_chunk(cs, co, s, k) is Unparsable || nth_chunk(
            cs,
            co,
            s,
            k,
        ) is Mismatch,
    ensures
        recv_body(cs, co, marker, s).0 is None,
    decreases k,
{
    lemma_recv_chunk_progress(cs, co, s);
    if k > 0 {
        let (o, rest) = recv_chunk(cs, co, s);
        assert(nth_chunk(cs, co, s, 0) == o);
        assert forall|j: nat| j < k - 1 implies (#[trigger] nth_chunk(cs, co, rest, j) matches ChunkOutcome::Data(c)
            && c != marker) by {
            assert(nth_chunk(cs, co, s, j + 1) == nth_chunk(cs, co, rest, j));
        }
        assert(nth_chunk(cs, co, s, k) == nth_chunk(cs, co, rest, (k - 1) as nat));
        lemma_failed_chunk_discards_body(cs, co, marker, rest, (k - 1) as nat);
    }
}

} // verus!
