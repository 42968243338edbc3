//! Errors of the outbound protocols.

use vstd::prelude::*;

use crate::text;

verus! {

#[derive(Debug, Clone, Copy, PartialEq, Eq, Structural)]
pub enum ProxyErrorCode {
    AuthRequired,
    AuthFailed,
    ConnectionFailed,
    InvalidResponse,
    Timeout,
    StringTooLong,
    TransportUpgradeFailed,
}

/// An error with its kind; `source` is the text of an I/O error behind it.
#[derive(Debug)]
pub struct ProxyError {
    pub code: ProxyErrorCode,
    pub message: String,
    pub source: Option<String>,
}

impl ProxyError {
    /// Whether the error has a kind and a message, and no I/O error behind it.
    pub open spec fn says(self, code: ProxyErrorCode, message: Seq<char>) -> bool {
        self.code == code && self.message@ == message && self.source is None
    }

    pub fn new(code: ProxyErrorCode, message: &str) -> (r: Self)
        ensures
            r.says(code, message@),
    {
        ProxyError { code, message: message.to_owned(), source: None }
    }

    pub fn with_io(code: ProxyErrorCode, message: &str, err: &str) -> (r: Self)
        ensures
            r.code == code,
            r.message@ == message@,
            text::opt_view(r.source) == Some(err@),
    {
        ProxyError { code, message: message.to_owned(), source: Some(err.to_owned()) }
    }

    /// The error that an I/O error becomes.
    pub fn from_io(err: &str) -> (r: Self)
        ensures
            r.code == ProxyErrorCode::ConnectionFailed,
            r.message@ == err@,
            text::opt_view(r.source) == Some(err@),
    {
        Self::with_io(ProxyErrorCode::ConnectionFailed, err, err)
    }
}

/// An error made of a message that was put together.
pub(crate) fn error_of(code: ProxyErrorCode, message: &Vec<char>) -> (r: ProxyError)
    ensures
        r.says(code, message@),
{
    ProxyError { code, message: text::string_of(message.as_slice()), source: None }
}

} // verus!
