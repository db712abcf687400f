use vstd::prelude::*;

verus! {

/// The kinds of failure that the router reports.
#[derive(Clone, Copy, Debug, PartialEq, Eq, Structural)]
pub enum ErrorKind {
    /// A path pattern, or the combined pattern set, did not compile.
    BadRoutePattern,
    /// A sub-router whose handlers were already moved out was mounted or built again.
    ReusedSubRouter,
    /// The request path could not be percent-decoded into UTF-8.
    BadRequestPath,
    /// No route accepted the request.
    NoRouteMatched,
    /// A handler or a middleware failed.
    HandlerError,
}

/// A simple error: a kind and a message.
#[derive(Clone, Debug)]
pub struct Error {
    pub kind: ErrorKind,
    pub msg: String,
}

impl Error {
    /// Creates an error with the given message.
    pub fn new(msg: String) -> (r: Error)
        ensures
            r.msg@ == msg@,
            r.kind == ErrorKind::HandlerError,
    {
        Error { kind: ErrorKind::HandlerError, msg }
    }

    /// Wraps another error, given by its display text.
    pub fn wrap(err_text: String) -> (r: Error)
        ensures
            r.msg@ == err_text@,
            r.kind == ErrorKind::HandlerError,
    {
        Error { kind: ErrorKind::HandlerError, msg: err_text }
    }

    /// Creates an error of the given kind.
    pub fn with_kind(kind: ErrorKind, msg: String) -> (r: Error)
        ensures
            r.msg@ == msg@,
            r.kind == kind,
    {
        Error { kind, msg }
    }

    /// The message of the error.
    pub fn message(&self) -> (r: String)
        ensures
            r@ == self.msg@,
    {
        self.msg.clone()
    }
}

} // verus!
