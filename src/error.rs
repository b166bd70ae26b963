//! Failures of the library's operations, and the text the host receives.
use vstd::prelude::*;

verus! {

/// What went wrong, by origin.
#[derive(Clone, Copy, Debug, PartialEq, Eq, Structural)]
pub enum ErrorKind {
    /// The connection or handshake with the remote host failed.
    Transport,
    /// The remote host refused the credentials.
    Auth,
    /// No session is installed.
    NotConnected,
    /// The remote path does not exist.
    RemoteNotFound,
    /// An argument cannot be acted on (a new name holding a separator, a
    /// path with no final component).
    InvalidArgument,
    /// The local filesystem failed.
    Io,
    /// The remote side refused or failed an operation.
    RemoteOp,
}

/// A failure with its kind and a descriptive message.
#[derive(Debug)]
pub struct OpError {
    pub kind: ErrorKind,
    pub message: String,
}

impl OpError {
    pub fn new(kind: ErrorKind, message: &str) -> (r: OpError)
        ensures
            r.kind == kind,
            r.message@ == message@,
    {
        OpError { kind, message: message.to_owned() }
    }

    /// The failure of an operation attempted with no session installed.
    pub fn not_connected() -> (r: OpError)
        ensures
            r.kind == ErrorKind::NotConnected,
            r.message@ == "Not connected"@,
    {
        OpError::new(ErrorKind::NotConnected, "Not connected")
    }

    /// The same failure, with `context` and `": "` put before its message.
    pub fn with_context(self, context: &str) -> (r: OpError)
        ensures
            r.kind == self.kind,
            r.message@ == context@ + ": "@ + self.message@,
    {
        let mut m = context.to_owned();
        m.append(": ");
        m.append(self.message.as_str());
        OpError { kind: self.kind, message: m }
    }

    /// The failure as the host reads it: `ERR: ` followed by the message.
    pub fn to_reply(&self) -> (r: String)
        ensures
            r@ == "ERR: "@ + self.message@,
    {
        let mut r = String::from_str("ERR: ");
        r.append(self.message.as_str());
        r
    }
}

/// The text the host receives for an operation's outcome: `OK`, or the
/// failure's reply.
pub fn reply(outcome: &Result<(), OpError>) -> (r: String)
    ensures
        outcome is Ok ==> r@ == "OK"@,
        outcome is Err ==> r@ == "ERR: "@ + outcome->Err_0.message@,
{
    match outcome {
        Ok(()) => String::from_str("OK"),
        Err(e) => e.to_reply(),
    }
}

} // verus!
