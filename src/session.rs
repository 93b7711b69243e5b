//! The server's side of a session as a state machine: each state says what
//! the server waits for, and each event (a frame read, a path examined, a
//! file moved) takes it to the next state. The transport and the file system
//! stay with the caller, which performs what the state asks for.
use vstd::prelude::*;

use crate::connection::{invalid_path_text, recv_chunk, sends, ChunkOutcome, Link, LinkView};
use crate::error::Error;
use crate::framing::{frame, split_frame};
use crate::message::{
    encode_download, encode_result, encode_role, encode_upload, parse_download, parse_result,
    parse_role, parse_upload, DownloadMetadataView, Result as Answer, ResultView, Role,
    UploadMetadataView,
};

verus! {

/// Where a server session stands.
pub enum ServerSession {
    /// Waiting for the frame that declares the server's role.
    AwaitRole,
    /// Waiting for a download request.
    AwaitDownloadRequest,
    /// Waiting for the caller to examine the requested path.
    AwaitListing { requested: String },
    /// Sending files: `remaining` more follow.
    Sending { remaining: u32 },
    /// Waiting for upload metadata.
    AwaitUpload,
    /// Receiving files into `destination`, each closed by `marker`:
    /// `remaining` more follow.
    Receiving { remaining: u32, destination: String, marker: Vec<u8> },
    /// The session is over.
    Done,
}

/// What a requested path turned out to be.
pub enum Listing {
    /// A directory holding this many files.
    Directory(usize),
    /// A regular file.
    File,
    /// Neither.
    Missing,
}

/// The state after files are announced: `Done` when there are none.
pub open spec fn sending(n: int) -> ServerSession {
    if n == 0 {
        ServerSession::Done
    } else {
        ServerSession::Sending { remaining: n as u32 }
    }
}

/// The state after one more file has been sent or received.
pub open spec fn after_file(s: ServerSession) -> ServerSession {
    match s {
        ServerSession::Sending { remaining } => if remaining <= 1 {
            ServerSession::Done
        } else {
            ServerSession::Sending { remaining: (remaining - 1) as u32 }
        },
        ServerSession::Receiving { remaining, destination, marker } => if remaining <= 1 {
            ServerSession::Done
        } else {
            ServerSession::Receiving { remaining: (remaining - 1) as u32, destination, marker }
        },
        other => other,
    }
}

/// The state after `k` more files have been sent or received.
pub open spec fn after_files(s: ServerSession, k: nat) -> ServerSession
    decreases k,
{
    if k == 0 {
        s
    } else {
        after_files(after_file(s), (k - 1) as nat)
    }
}

/// A session receiving `n` files is still receiving after fewer than `n`
/// of them, and is over after exactly `n`.
pub proof fn lemma_receives_announced_count(
    n: u32,
    destination: String,
    marker: Vec<u8>,
    k: nat,
)
    requires
        n > 0,
        k <= n,
    ensures
        k < n ==> after_files((ServerSession::Receiving { remaining: n, destination, marker }), k)
            == (ServerSession::Receiving { remaining: (n - k) as u32, destination, marker }),
        k == n ==> (after_files((ServerSession::Receiving { remaining: n, destination, marker }), k)
            is Done),
    decreases k,
{
    if k > 0 {
        let s = ServerSession::Receiving { remaining: n, destination, marker };
        if n == 1 {
            assert(after_file(s) is Done);
            assert(after_files(ServerSession::Done, (k - 1) as nat) == ServerSession::Done) by {
                lemma_done_stays_done((k - 1) as nat);
            }
        } else {
            lemma_receives_announced_count((n - 1) as u32, destination, marker, (k - 1) as nat);
        }
    }
}

/// A session sending `n` files is still sending after fewer than `n` of
/// them, and is over after exactly `n`.
pub proof fn lemma_sends_announced_count(n: u32, k: nat)
    requires
        n > 0,
        k <= n,
    ensures
        k < n ==> after_files((ServerSession::Sending { remaining: n }), k)
            == (ServerSession::Sending { remaining: (n - k) as u32 }),
        k == n ==> (after_files((ServerSession::Sending { remaining: n }), k) is Done),
    decreases k,
{
    if k > 0 {
        if n == 1 {
            lemma_done_stays_done((k - 1) as nat);
        } else {
            lemma_sends_announced_count((n - 1) as u32, (k - 1) as nat);
        }
    }
}

proof fn lemma_done_stays_done(k: nat)
    ensures
        after_files(ServerSession::Done, k) == ServerSession::Done,
    decreases k,
{
    if k > 0 {
        lemma_done_stays_done((k - 1) as nat);
    }
}

impl ServerSession {
    /// A session that has read nothing yet.
    pub fn new() -> (r: ServerSession)
        ensures
            r is AwaitRole,
    {
        ServerSession::AwaitRole
    }

    /// Whether the current state waits for one raw frame.
    pub fn needs_frame(&self) -> (r: bool)
        ensures
            r == (self is AwaitRole || self is AwaitDownloadRequest || self is AwaitUpload),
    {
        match self {
            ServerSession::AwaitRole | ServerSession::AwaitDownloadRequest
            | ServerSession::AwaitUpload => true,
            _ => false,
        }
    }

    /// Reads the frame the current state waits for and moves on: a role
    /// leads to a download request or to upload metadata; a download request
    /// leads to examining its path; upload metadata leads to receiving the
    /// files it announces, or ends the session when it announces none. An
    /// error leaves the state as it was.
    pub fn on_frame(&mut self, link: &mut Link) -> (r: core::result::Result<(), Error>)
        requires
            (*old(self)) is AwaitRole || (*old(self)) is AwaitDownloadRequest || (*old(self)) is AwaitUpload,
        ensures
            r is Err ==> *final(self) == *old(self),
            match split_frame(old(link)@.incoming) {
                None => (r matches Err(Error::IO(_))) && final(link)@ == old(link)@,
                Some((p, rest)) => match *old(self) {
                    ServerSession::AwaitRole => final(link)@ == (LinkView {
                        incoming: rest,
                        ..old(link)@
                    }) && match parse_role(p) {
                        Some(Role::Source) => r is Ok && ((*final(self)) is AwaitDownloadRequest),
                        Some(Role::Sink) => r is Ok && ((*final(self)) is AwaitUpload),
                        None => r matches Err(Error::Deserialize),
                    },
                    ServerSession::AwaitDownloadRequest => match parse_download(p) {
                        Some(v) => r is Ok && final(link)@ == (LinkView {
                            incoming: rest,
                            compression: v.compression,
                            checksum: v.checksum,
                            ..old(link)@
                        }) && ((*final(self)) matches ServerSession::AwaitListing { requested }
                            && requested@ == v.destination),
                        None => (r matches Err(Error::Deserialize)) && final(link)@ == (LinkView {
                            incoming: rest,
                            ..old(link)@
                        }),
                    },
                    ServerSession::AwaitUpload => match parse_upload(p) {
                        Some(v) => r is Ok && final(link)@ == (LinkView {
                            incoming: rest,
                            compression: v.compression,
                            checksum: v.checksum,
                            ..old(link)@
                        }) && if v.count == 0 {
                            (*final(self)) is Done
                        } else {
                            (*final(self)) matches ServerSession::Receiving {
                                remaining,
                                destination,
                                marker,
                            } && remaining == v.count && destination@ == v.destination && marker@
                                == v.eof_marker
                        },
                        None => (r matches Err(Error::Deserialize)) && final(link)@ == (LinkView {
                            incoming: rest,
                            ..old(link)@
                        }),
                    },
                    _ => false,
                },
            },
    {
        match self {
            ServerSession::AwaitRole => {
                let role = link.read_role()?;
                *self = match role {
                    Role::Source => ServerSession::AwaitDownloadRequest,
                    Role::Sink => ServerSession::AwaitUpload,
                };
            },
            ServerSession::AwaitDownloadRequest => {
                let request = link.read_download_metadata()?;
                *self = ServerSession::AwaitListing { requested: request.destination };
            },
            _ => {
                let meta = link.read_upload_metadata()?;
                *self = if meta.count == 0 {
                    ServerSession::Done
                } else {
                    ServerSession::Receiving {
                        remaining: meta.count,
                        destination: meta.destination,
                        marker: meta.eof_marker,
                    }
                };
            },
        }
        Ok(())
    }

    /// Answers the download request once its path is examined: a directory
    /// announces its files and a file announces one, and sending begins; a
    /// path that is neither is answered with an error naming it, which ends
    /// the session. When the answer cannot be written the state is kept.
    pub fn on_listing(&mut self, link: &mut Link, listing: Listing) -> (r: core::result::Result<
        (),
        Error,
    >)
        requires
            (*old(self)) is AwaitListing,
            listing matches Listing::Directory(n) ==> n <= u32::MAX,
        ensures
            ({
                let requested = (*old(self))->requested@;
                let count: Option<int> = match listing {
                    Listing::Directory(n) => Some(n as int),
                    Listing::File => Some(1),
                    Listing::Missing => None,
                };
                &&& sends(
                    old(link)@,
                    final(link)@,
                    r,
                    encode_result(
                        match count {
                            Some(n) => ResultView::Marker {
                                count: n as u32,
                                marker: old(link)@.marker,
                            },
                            None => ResultView::Failure(invalid_path_text(requested)),
                        },
                    ),
                )
                &&& r is Err ==> *final(self) == *old(self)
                &&& r is Ok ==> *final(self) == match count {
                    Some(n) => sending(n),
                    None => ServerSession::Done,
                }
            }),
    {
        let (count, next) = match listing {
            Listing::Directory(n) => (
                Some(n),
                if n == 0 {
                    ServerSession::Done
                } else {
                    ServerSession::Sending { remaining: n as u32 }
                },
            ),
            Listing::File => (Some(1), ServerSession::Sending { remaining: 1 }),
            Listing::Missing => (None, ServerSession::Done),
        };
        let requested = match self {
            ServerSession::AwaitListing { requested } => requested.as_str(),
            _ => "",
        };
        link.answer_download(requested, count)?;
        *self = next;
        Ok(())
    }

    /// One file has been sent or received; the session ends after the last.
    pub fn on_file_done(&mut self)
        requires
            (*old(self)) is Sending || (*old(self)) is Receiving,
        ensures
            *final(self) == after_file(*old(self)),
    {
        let mut current = ServerSession::Done;
        std::mem::swap(&mut current, self);
        *self = match current {
            ServerSession::Sending { remaining } => if remaining <= 1 {
                ServerSession::Done
            } else {
                ServerSession::Sending { remaining: remaining - 1 }
            },
            ServerSession::Receiving { remaining, destination, marker } => if remaining <= 1 {
                ServerSession::Done
            } else {
                ServerSession::Receiving { remaining: remaining - 1, destination, marker }
            },
            other => other,
        };
    }
}

/// Where a client session stands.
pub enum ClientSession {
    /// Waiting for the server's answer to a download request.
    AwaitAnswer,
    /// Receiving files, each closed by `marker`: `remaining` more follow.
    Receiving { remaining: u32, marker: Vec<u8> },
    /// Sending files: `remaining` more follow.
    Sending { remaining: u32 },
    /// The session is over.
    Done,
}

/// The client's state after one more file has been sent or received.
pub open spec fn client_after_file(s: ClientSession) -> ClientSession {
    match s {
        ClientSession::Sending { remaining } => if remaining <= 1 {
            ClientSession::Done
        } else {
            ClientSession::Sending { remaining: (remaining - 1) as u32 }
        },
        ClientSession::Receiving { remaining, marker } => if remaining <= 1 {
            ClientSession::Done
        } else {
            ClientSession::Receiving { remaining: (remaining - 1) as u32, marker }
        },
        other => other,
    }
}

/// The client's state after `k` more files have been sent or received.
pub open spec fn client_after_files(s: ClientSession, k: nat) -> ClientSession
    decreases k,
{
    if k == 0 {
        s
    } else {
        client_after_files(client_after_file(s), (k - 1) as nat)
    }
}

proof fn lemma_client_done_stays_done(k: nat)
    ensures
        client_after_files(ClientSession::Done, k) == ClientSession::Done,
    decreases k,
{
    if k > 0 {
        lemma_client_done_stays_done((k - 1) as nat);
    }
}

/// A push that announced `n` files is still sending after fewer than `n`
/// of them, and is over after exactly `n`.
pub proof fn lemma_client_sends_announced_count(n: u32, k: nat)
    requires
        n > 0,
        k <= n,
    ensures
        k < n ==> client_after_files((ClientSession::Sending { remaining: n }), k)
            == (ClientSession::Sending { remaining: (n - k) as u32 }),
        k == n ==> (client_after_files((ClientSession::Sending { remaining: n }), k) is Done),
    decreases k,
{
    if k > 0 {
        if n == 1 {
            lemma_client_done_stays_done((k - 1) as nat);
        } else {
            lemma_client_sends_announced_count((n - 1) as u32, (k - 1) as nat);
        }
    }
}

/// A pull whose answer announced `n` files is still receiving after fewer
/// than `n` of them, and is over after exactly `n`.
pub proof fn lemma_client_receives_announced_count(n: u32, marker: Vec<u8>, k: nat)
    requires
        n > 0,
        k <= n,
    ensures
        k < n ==> client_after_files((ClientSession::Receiving { remaining: n, marker }), k)
            == (ClientSession::Receiving { remaining: (n - k) as u32, marker }),
        k == n ==> (client_after_files((ClientSession::Receiving { remaining: n, marker }), k)
            is Done),
    decreases k,
{
    if k > 0 {
        if n == 1 {
            lemma_client_done_stays_done((k - 1) as nat);
        } else {
            lemma_client_receives_announced_count((n - 1) as u32, marker, (k - 1) as nat);
        }
    }
}

impl ClientSession {
    /// Starts a push of `count` files into `destination` on the server: the
    /// `Sink` role, then the upload metadata with this link's codecs and
    /// sentinel. Exactly `count` file streams are then owed.
    pub fn start_push(link: &mut Link, count: usize, destination: &str) -> (r: core::result::Result<
        ClientSession,
        Error,
    >)
        requires
            count <= u32::MAX,
        ensures
            ({
                let b = encode_upload(
                    UploadMetadataView {
                        count: count as u32,
                        destination: destination@,
                        eof_marker: old(link)@.marker,
                        compression: old(link)@.compression,
                        checksum: old(link)@.checksum,
                    },
                );
                let role = frame(encode_role(Role::Sink));
                &&& b.len() <= u32::MAX ==> (r matches Ok(s) && if count == 0 {
                    s is Done
                } else {
                    s matches ClientSession::Sending { remaining } && remaining == count
                }) && final(link)@ == (LinkView {
                    outgoing: old(link)@.outgoing + role + frame(b),
                    ..old(link)@
                })
                &&& b.len() > u32::MAX ==> (r matches Err(Error::InvalidArgument(_)))
                    && final(link)@ == (LinkView { outgoing: old(link)@.outgoing + role, ..old(link)@ })
            }),
    {
        let _ = link.write_role(Role::Sink);
        link.write_upload_metadata(count, destination)?;
        Ok(
            if count == 0 {
                ClientSession::Done
            } else {
                ClientSession::Sending { remaining: count as u32 }
            },
        )
    }

    /// Starts a pull of `source` from the server: the `Source` role, then the
    /// download request with this link's codecs. The server's answer is owed
    /// next.
    pub fn start_pull(link: &mut Link, source: &str) -> (r: core::result::Result<ClientSession, Error>)
        ensures
            ({
                let b = encode_download(
                    DownloadMetadataView {
                        destination: source@,
                        compression: old(link)@.compression,
                        checksum: old(link)@.checksum,
                    },
                );
                let role = frame(encode_role(Role::Source));
                &&& b.len() <= u32::MAX ==> (r matches Ok(s) && s is AwaitAnswer) && final(link)@ == (
                LinkView { outgoing: old(link)@.outgoing + role + frame(b), ..old(link)@ })
                &&& b.len() > u32::MAX ==> (r matches Err(Error::InvalidArgument(_)))
                    && final(link)@ == (LinkView { outgoing: old(link)@.outgoing + role, ..old(link)@ })
            }),
    {
        let _ = link.write_role(Role::Source);
        link.write_download_metadata(source)?;
        Ok(ClientSession::AwaitAnswer)
    }

    /// Whether the current state waits for the server's answer.
    pub fn needs_answer(&self) -> (r: bool)
        ensures
            r == (*self is AwaitAnswer),
    {
        match self {
            ClientSession::AwaitAnswer => true,
            _ => false,
        }
    }

    /// Reads the server's answer: announced files are then received, each
    /// closed by the server's sentinel; an error answer is reported as a
    /// `DownloadError`; an answer that does not decode is `Deserialize`.
    pub fn on_answer(&mut self, link: &mut Link) -> (r: core::result::Result<(), Error>)
        requires
            (*old(self)) is AwaitAnswer,
        ensures
            r is Err ==> *final(self) == *old(self),
            ({
                let (o, rest) = recv_chunk(
                    old(link)@.checksum,
                    old(link)@.compression,
                    old(link)@.incoming,
                );
                &&& final(link)@ == (LinkView { incoming: rest, ..old(link)@ })
                &&& match o {
                    ChunkOutcome::Data(c) => match parse_result(c) {
                        Some(ResultView::Marker { count, marker }) => r is Ok && if count == 0 {
                            (*final(self)) is Done
                        } else {
                            (*final(self)) matches ClientSession::Receiving { remaining, marker: m }
                                && remaining == count && m@ == marker
                        },
                        Some(ResultView::Failure(msg)) => r matches Err(Error::DownloadError(m))
                            && m@ == msg,
                        None => r matches Err(Error::Deserialize),
                    },
                    _ => r is Err,
                }
            }),
    {
        match link.read_result()? {
            Answer::Marker { count, marker } => {
                *self = if count == 0 {
                    ClientSession::Done
                } else {
                    ClientSession::Receiving { remaining: count, marker }
                };
                Ok(())
            },
            Answer::Failure(msg) => Err(Error::DownloadError(msg)),
        }
    }

    /// One file has been sent or received; the session ends after the last.
    pub fn on_file_done(&mut self)
        requires
            (*old(self)) is Sending || (*old(self)) is Receiving,
        ensures
            *final(self) == client_after_file(*old(self)),
    {
        let mut current = ClientSession::Done;
        std::mem::swap(&mut current, self);
        *self = match current {
            ClientSession::Sending { remaining } => if remaining <= 1 {
                ClientSession::Done
            } else {
                ClientSession::Sending { remaining: remaining - 1 }
            },
            ClientSession::Receiving { remaining, marker } => if remaining <= 1 {
                ClientSession::Done
            } else {
                ClientSession::Receiving { remaining: remaining - 1, marker }
            },
            other => other,
        };
    }
}

} // verus!
