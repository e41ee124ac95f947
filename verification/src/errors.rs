//! The error taxonomy of the engine. Connection, TLS and login failures are
//! fatal for the one worker that hits them; a malformed server notification
//! is surfaced as a protocol anomaly. Each variant carries a plain
//! description of what went wrong.
use vstd::prelude::*;

verus! {

pub type EmailResult<T> = Result<T, EmailError>;

#[derive(Clone, Debug, PartialEq, Eq)]
pub enum EmailError {
    /// The TCP connection could not be opened.
    ConnectError(String),
    /// TLS negotiation failed.
    TlsError(String),
    /// The IMAP server misbehaved: a command failed or a notification was
    /// malformed.
    Imap(String),
    /// The server rejected the account's credentials.
    LoginFailed(String),
}

} // verus!
