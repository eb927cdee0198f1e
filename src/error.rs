use vstd::prelude::*;

verus! {

/// The kinds of failure that cross the wire.
#[derive(Clone, Copy, Debug, PartialEq, Eq, Structural)]
pub enum ErrorKind {
    AlreadyExists,
    NotFound,
    Other,
}

/// An error: its kind and a human-readable reason.
#[derive(Clone, Debug)]
pub struct Error {
    pub kind: ErrorKind,
    pub reason: String,
}

impl Error {
    /// An error of kind `Other` carrying `message` as its reason.
    pub fn new(message: String) -> (r: Error)
        ensures
            r.kind == ErrorKind::Other,
            r.reason@ == message@,
    {
        Error { kind: ErrorKind::Other, reason: message }
    }

    pub fn already_exists() -> (r: Error)
        ensures
            r.kind == ErrorKind::AlreadyExists,
    {
        Error { kind: ErrorKind::AlreadyExists, reason: String::new() }
    }

    pub fn not_found() -> (r: Error)
        ensures
            r.kind == ErrorKind::NotFound,
    {
        Error { kind: ErrorKind::NotFound, reason: String::new() }
    }

    pub fn other() -> (r: Error)
        ensures
            r.kind == ErrorKind::Other,
    {
        Error { kind: ErrorKind::Other, reason: String::new() }
    }

    pub fn kind(&self) -> (r: ErrorKind)
        ensures
            r == self.kind,
    {
        self.kind
    }
}

/// The HTTP status that a failure of kind `k` is answered with.
pub open spec fn status_of(k: ErrorKind) -> u16 {
    match k {
        ErrorKind::AlreadyExists => 409,
        ErrorKind::NotFound => 404,
        ErrorKind::Other => 500,
    }
}

/// The HTTP status code for an error kind.
pub fn http_status(k: ErrorKind) -> (r: u16)
    ensures
        r == status_of(k),
{
    match k {
        ErrorKind::AlreadyExists => 409,
        ErrorKind::NotFound => 404,
        ErrorKind::Other => 500,
    }
}

} // verus!
