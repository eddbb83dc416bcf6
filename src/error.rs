//! The error taxonomy: client misuse, malformed server replies, recognised
//! command statuses, field conversions, transport and TLS failures.
use vstd::prelude::*;
use vstd::string::StringSliceAdditionalSpecFns;

use crate::text::{bytes_equal, is_prefix, starts_with};

verus! {

#[verifier::external_type_specification]
#[verifier::external_body]
pub struct ExIoError(std::io::Error);

/// What the text of some bytes reads as, with invalid UTF-8 replaced.
pub uninterp spec fn lossy_text(b: Seq<u8>) -> Seq<char>;

/// Relies on `String::from_utf8_lossy`: the text depends on the bytes alone.
#[verifier::external_body]
pub(crate) fn text_of(b: &[u8]) -> (r: String)
    ensures
        r@ == lossy_text(b@),
{
    String::from_utf8_lossy(b).into_owned()
}

/// Misuse of the client, or input that breaks a protocol limit.
#[derive(Debug, PartialEq, Eq, Clone)]
pub enum ClientError {
    KeyTooLong,
    Error(String),
}

/// A reply from the server that does not fit the protocol.
#[derive(Debug, PartialEq, Eq, Clone)]
pub enum ServerError {
    BadMagic(u8),
    BadResponse(String),
    Error(String),
}

/// A status that the server reported for a command.
#[derive(Debug, PartialEq, Eq, Clone, Copy)]
pub enum CommandError {
    KeyExists,
    KeyNotFound,
    ValueTooLarge,
    InvalidArguments,
    AuthenticationRequired,
    Unknown(u16),
    InvalidCommand,
}

/// A field that could not be converted.
#[derive(Debug, PartialEq, Eq, Clone)]
pub enum ParseError {
    Bool,
    Int,
    Float,
    String,
}

/// Every failure that an operation of the client can report.
#[derive(Debug)]
pub enum MemcacheError {
    /// The transport failed: connect, read, write or timeout.
    IOError(std::io::Error),
    ClientError(ClientError),
    ServerError(ServerError),
    CommandError(CommandError),
    /// The TLS handshake or a certificate failed.
    OpensslError(String),
    ParseError(ParseError),
}

pub open spec fn error_reply() -> Seq<u8> {
    "ERROR\r\n".spec_bytes()
}

pub open spec fn client_error_prefix() -> Seq<u8> {
    "CLIENT_ERROR".spec_bytes()
}

pub open spec fn server_error_prefix() -> Seq<u8> {
    "SERVER_ERROR".spec_bytes()
}

pub open spec fn not_found_reply() -> Seq<u8> {
    "NOT_FOUND\r\n".spec_bytes()
}

pub open spec fn exists_reply() -> Seq<u8> {
    "EXISTS\r\n".spec_bytes()
}

/// A reply line in which the server reports an error of its own.
pub open spec fn is_error_line(line: Seq<u8>) -> bool {
    line == error_reply() || is_prefix(client_error_prefix(), line) || is_prefix(
        server_error_prefix(),
        line,
    )
}

/// `e` is the error that the error line `line` reports: an unknown command,
/// or a client or server error that carries the line's text.
pub open spec fn reports_line(e: MemcacheError, line: Seq<u8>) -> bool {
    if line == error_reply() {
        e == MemcacheError::CommandError(CommandError::InvalidCommand)
    } else if is_prefix(client_error_prefix(), line) {
        e matches MemcacheError::ClientError(ClientError::Error(m)) && m@ == lossy_text(line)
    } else {
        e matches MemcacheError::ServerError(ServerError::Error(m)) && m@ == lossy_text(line)
    }
}

/// What went wrong with a reply, as the reply readers' contracts describe it.
pub enum Fault {
    /// The server answered with this error line.
    ErrorLine(Seq<u8>),
    /// This line does not fit the reply that was expected.
    Malformed(Seq<u8>),
    /// A numeric field is not a number of the expected width.
    BadNumber,
    /// The server answered with a recognised status.
    Status(CommandError),
    /// A binary reply began with this byte where the response magic belongs.
    BadMagic(u8),
}

/// `e` is the error that stands for `f`.
pub open spec fn raises(e: MemcacheError, f: Fault) -> bool {
    match f {
        Fault::ErrorLine(line) => reports_line(e, line),
        Fault::Malformed(line) => e matches MemcacheError::ServerError(
            ServerError::BadResponse(m),
        ) && m@ == lossy_text(line),
        Fault::BadNumber => e == MemcacheError::ParseError(ParseError::Int),
        Fault::Status(c) => e == MemcacheError::CommandError(c),
        Fault::BadMagic(m) => e == MemcacheError::ServerError(ServerError::BadMagic(m)),
    }
}

/// The fault that a reply line reports in itself, if any: an error line, or
/// one of the two statuses that every text reply may carry.
pub open spec fn line_fault(line: Seq<u8>) -> Option<Fault> {
    if is_error_line(line) {
        Some(Fault::ErrorLine(line))
    } else if line == not_found_reply() {
        Some(Fault::Status(CommandError::KeyNotFound))
    } else if line == exists_reply() {
        Some(Fault::Status(CommandError::KeyExists))
    } else {
        None
    }
}

/// A connection that reported `e` must be discarded: after a transport, TLS,
/// framing or field failure the stream cannot be trusted.
pub open spec fn breaks(e: MemcacheError) -> bool {
    !(e is ClientError || e is CommandError)
}

/// The error that a binary status code stands for; `None` for success.
pub open spec fn status_error(status: u16) -> Option<CommandError> {
    if status == 0 {
        None
    } else if status == 1 {
        Some(CommandError::KeyNotFound)
    } else if status == 2 {
        Some(CommandError::KeyExists)
    } else if status == 3 {
        Some(CommandError::ValueTooLarge)
    } else if status == 4 {
        Some(CommandError::InvalidArguments)
    } else if status == 0x20 {
        Some(CommandError::AuthenticationRequired)
    } else {
        Some(CommandError::Unknown(status))
    }
}

/// Whether a reply line is one in which the server reports an error.
pub fn is_memcache_error(s: &[u8]) -> (r: bool)
    ensures
        r == is_error_line(s@),
{
    bytes_equal(s, "ERROR\r\n".as_bytes()) || starts_with(s, "CLIENT_ERROR".as_bytes())
        || starts_with(s, "SERVER_ERROR".as_bytes())
}

/// The error that an error line reports.
pub fn error_of_line(line: &[u8]) -> (r: MemcacheError)
    requires
        is_error_line(line@),
    ensures
        reports_line(r, line@),
{
    if bytes_equal(line, "ERROR\r\n".as_bytes()) {
        MemcacheError::CommandError(CommandError::InvalidCommand)
    } else if starts_with(line, "CLIENT_ERROR".as_bytes()) {
        MemcacheError::ClientError(ClientError::Error(text_of(line)))
    } else {
        MemcacheError::ServerError(ServerError::Error(text_of(line)))
    }
}

impl CommandError {
    /// The error for a binary status code; `None` for success.
    pub fn from_status(status: u16) -> (r: Option<CommandError>)
        ensures
            r == status_error(status),
    {
        match status {
            0x0 => None,
            0x1 => Some(CommandError::KeyNotFound),
            0x2 => Some(CommandError::KeyExists),
            0x3 => Some(CommandError::ValueTooLarge),
            0x4 => Some(CommandError::InvalidArguments),
            0x20 => Some(CommandError::AuthenticationRequired),
            e => Some(CommandError::Unknown(e)),
        }
    }
}

impl MemcacheError {
    /// Passes a reply line through, or turns it into the error it reports.
    pub fn try_from(s: Vec<u8>) -> (r: Result<Vec<u8>, MemcacheError>)
        ensures
            match line_fault(s@) {
                None => r == Ok::<Vec<u8>, MemcacheError>(s),
                Some(f) => r matches Err(e) && raises(e, f),
            },
    {
        if is_memcache_error(s.as_slice()) {
            Err(error_of_line(s.as_slice()))
        } else if bytes_equal(s.as_slice(), "NOT_FOUND\r\n".as_bytes()) {
            Err(MemcacheError::CommandError(CommandError::KeyNotFound))
        } else if bytes_equal(s.as_slice(), "EXISTS\r\n".as_bytes()) {
            Err(MemcacheError::CommandError(CommandError::KeyExists))
        } else {
            Ok(s)
        }
    }

    /// Whether a connection that reported this error must be discarded: after
    /// a transport, TLS, framing or field failure the stream cannot be trusted.
    pub fn breaks_connection(&self) -> (r: bool)
        ensures
            r == breaks(*self),
    {
        match self {
            MemcacheError::ClientError(_) => false,
            MemcacheError::CommandError(_) => false,
            _ => true,
        }
    }
}

impl From<ClientError> for MemcacheError {
    fn from(err: ClientError) -> (r: Self) {
        MemcacheError::ClientError(err)
    }
}

impl vstd::std_specs::convert::FromSpecImpl<ClientError> for MemcacheError {
    open spec fn obeys_from_spec() -> bool {
        true
    }

    open spec fn from_spec(v: ClientError) -> MemcacheError {
        MemcacheError::ClientError(v)
    }
}

impl From<ServerError> for MemcacheError {
    fn from(err: ServerError) -> (r: Self) {
        MemcacheError::ServerError(err)
    }
}

impl vstd::std_specs::convert::FromSpecImpl<ServerError> for MemcacheError {
    open spec fn obeys_from_spec() -> bool {
        true
    }

    open spec fn from_spec(v: ServerError) -> MemcacheError {
        MemcacheError::ServerError(v)
    }
}

impl From<CommandError> for MemcacheError {
    fn from(err: CommandError) -> (r: Self) {
        MemcacheError::CommandError(err)
    }
}

impl vstd::std_specs::convert::FromSpecImpl<CommandError> for MemcacheError {
    open spec fn obeys_from_spec() -> bool {
        true
    }

    open spec fn from_spec(v: CommandError) -> MemcacheError {
        MemcacheError::CommandError(v)
    }
}

impl From<ParseError> for MemcacheError {
    fn from(err: ParseError) -> (r: Self) {
        MemcacheError::ParseError(err)
    }
}

impl vstd::std_specs::convert::FromSpecImpl<ParseError> for MemcacheError {
    open spec fn obeys_from_spec() -> bool {
        true
    }

    open spec fn from_spec(v: ParseError) -> MemcacheError {
        MemcacheError::ParseError(v)
    }
}

impl From<String> for ClientError {
    fn from(s: String) -> (r: Self) {
        ClientError::Error(s)
    }
}

impl vstd::std_specs::convert::FromSpecImpl<String> for ClientError {
    open spec fn obeys_from_spec() -> bool {
        true
    }

    open spec fn from_spec(v: String) -> ClientError {
        ClientError::Error(v)
    }
}

impl From<String> for ServerError {
    fn from(s: String) -> (r: Self) {
        ServerError::Error(s)
    }
}

impl vstd::std_specs::convert::FromSpecImpl<String> for ServerError {
    open spec fn obeys_from_spec() -> bool {
        true
    }

    open spec fn from_spec(v: String) -> ServerError {
        ServerError::Error(v)
    }
}

} // verus!
