//! The errors that the transfer protocol reports.
use vstd::prelude::*;

verus! {

#[verifier::external_type_specification]
#[verifier::external_body]
pub struct ExIoError(std::io::Error);

/// What went wrong in a session.
#[derive(Debug)]
pub enum Error {
    /// A socket address did not parse.
    InvalidAddress,
    /// A command line or configuration value was rejected.
    InvalidArgument(String),
    /// The operating system or the byte stream failed.
    IO(std::io::Error),
    /// A message did not decode.
    Deserialize,
    /// The transport could not connect.
    ConnectionFailed,
    /// A chunk's checksum was missing, unreadable or wrong.
    IntegrityError(String),
    /// The peer answered a download request with an error.
    DownloadError(String),
    /// A request named a path outside what it may reach.
    InvalidRequest(String),
}

impl Error {
    pub fn integrity_error(s: &str) -> (r: Self)
        ensures
            r matches Error::IntegrityError(m) && m@ == s@,
    {
        Error::IntegrityError(s.to_owned())
    }

    pub fn invalid_argument(s: &str) -> (r: Self)
        ensures
            r matches Error::InvalidArgument(m) && m@ == s@,
    {
        Error::InvalidArgument(s.to_owned())
    }

    pub fn download_error(s: &str) -> (r: Self)
        ensures
            r matches Error::DownloadError(m) && m@ == s@,
    {
        Error::DownloadError(s.to_owned())
    }

    pub fn invalid_request(s: &str) -> (r: Self)
        ensures
            r matches Error::InvalidRequest(m) && m@ == s@,
    {
        Error::InvalidRequest(s.to_owned())
    }
}

impl From<std::io::Error> for Error {
    fn from(e: std::io::Error) -> (r: Self)
        ensures
            r == Error::IO(e),
    {
        Error::IO(e)
    }
}

impl vstd::std_specs::convert::FromSpecImpl<std::io::Error> for Error {
    open spec fn obeys_from_spec() -> bool {
        true
    }

    open spec fn from_spec(e: std::io::Error) -> Error {
        Error::IO(e)
    }
}

/// Relies on `std::io::Error::from`: an error of kind `UnexpectedEof`,
/// for a stream that ended inside a frame.
#[verifier::external_body]
pub fn unexpected_eof() -> (r: std::io::Error) {
    std::io::Error::from(std::io::ErrorKind::UnexpectedEof)
}

} // verus!
