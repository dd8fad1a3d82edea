use vstd::prelude::*;

verus! {

/// Status codes of a finished call.
#[derive(Clone, Copy, Debug, PartialEq, Eq, Structural)]
pub enum Code {
    Success,
    Cancelled,
    Unknown,
    InvalidArgument,
    DeadlineExceeded,
    NotFound,
    AlreadyExists,
    PermissionDenied,
    ResourceExhausted,
    FailedPrecondition,
    Aborted,
    OutOfRange,
    Unimplemented,
    Internal,
    Unavailable,
    DataLoss,
    Unauthenticated,
}

/// The terminal status of a call: a code and a message.
#[derive(Debug)]
pub struct Status {
    pub code: Code,
    pub message: String,
}

impl Status {
    /// A status with the given code and message.
    pub fn new(code: Code, message: String) -> (r: Status)
        ensures
            r.code == code,
            r.message == message,
    {
        Status { code, message }
    }

    /// The status of a request to a path that no method serves; the message
    /// is the path.
    pub fn unimplemented(path: &str) -> (r: Status)
        ensures
            r.code == Code::Unimplemented,
            r.message@ == path@,
    {
        Status { code: Code::Unimplemented, message: String::from_str(path) }
    }
}

} // verus!
