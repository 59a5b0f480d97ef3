//! Error kinds of the protocol, each with its fixed numeric code.
use vstd::prelude::*;

verus! {

/// The JSON-RPC error kinds that requests can fail with.
#[derive(Clone, Copy, Debug, PartialEq, Eq, Structural)]
pub enum LspErrorCode {
    /// Error code indicating that a server received a notification or
    /// request before the server has received the `initialize` request.
    ServerNotInitialized,
    /// A request failed but it was syntactically correct, e.g the
    /// method name was known and the parameters were valid. The error
    /// message should contain human readable information about why
    /// the request failed.
    RequestFailed,
    /// A method that the server does not know.
    MethodNotFound,
}

/// The numeric code that stands for `c` on the wire.
pub open spec fn code_of(c: LspErrorCode) -> int {
    match c {
        LspErrorCode::ServerNotInitialized => -32002,
        LspErrorCode::RequestFailed => -32803,
        LspErrorCode::MethodNotFound => -32601,
    }
}

impl LspErrorCode {
    /// The numeric code of this error kind.
    pub fn code(&self) -> (r: i64)
        ensures
            r == code_of(*self),
    {
        match self {
            LspErrorCode::ServerNotInitialized => -32002,
            LspErrorCode::RequestFailed => -32803,
                LspErrorCode::MethodNotFound => -32601,
        }
    }
}

/// An error response: its kind and a message for people.
#[derive(Clone, Debug)]
pub struct LspError {
    pub code: LspErrorCode,
    pub message: String,
}

impl LspError {
    /// An error of kind `code` that carries `message`.
    pub fn new(code: LspErrorCode, message: &str) -> (r: LspError)
        ensures
            r.code == code,
            r.message@ == message@,
    {
        LspError { code, message: message.to_owned() }
    }
}

} // verus!
