use vstd::prelude::*;
use crate::sse::SseError;

verus! {

/// The failure taxonomy surfaced to callers: an absent entity, a
/// conflicting state, a rejected request, a forbidden action, or an
/// underlying collaborator failure. Fan-out failures never appear here;
/// they are contained at the broadcaster.
#[derive(Debug)]
pub enum Error {
    /// The storage collaborator failed; the detail is its message.
    Dal(String),
    /// The request would leave or found the data in a conflicting state.
    Conflict(String),
    /// The addressed room, member or track does not exist.
    NotFound(&'static str),
    /// The request itself is malformed or over a limit.
    BadRequest(&'static str),
    /// A request carried a malformed identifier.
    Uuid(String),
    /// The broadcaster could not schedule the initial enqueue.
    Sse(SseError),
    /// The acting user may not act on this room.
    Forbidden(&'static str),
}

impl Error {
    /// The HTTP status each failure class maps to.
    pub open spec fn spec_status_code(self) -> u16 {
        match self {
            Error::Dal(_) => 500,
            Error::Conflict(_) => 409,
            Error::NotFound(_) => 404,
            Error::BadRequest(_) => 400,
            Error::Uuid(_) => 400,
            Error::Sse(_) => 500,
            Error::Forbidden(_) => 403,
        }
    }

    pub fn status_code(&self) -> (r: u16)
        ensures
            r == self.spec_status_code(),
    {
        match self {
            Error::Dal(_) => 500,
            Error::Conflict(_) => 409,
            Error::NotFound(_) => 404,
            Error::BadRequest(_) => 400,
            Error::Uuid(_) => 400,
            Error::Sse(_) => 500,
            Error::Forbidden(_) => 403,
        }
    }

    /// Whether the failure is the caller's fault; client errors carry
    /// their message outward, server errors do not.
    pub fn is_client_error(&self) -> (r: bool)
        ensures
            r == (400 <= self.spec_status_code() < 500),
    {
        let code = self.status_code();
        400 <= code && code < 500
    }
}

} // verus!
