//! Error taxonomy shared by every primitive.
use vstd::prelude::*;

verus! {

/// Kind of a failure. The source text travels beside it in [`IpcError`].
#[non_exhaustive]
#[derive(Debug, Clone, Copy, PartialEq, Eq, Structural)]
pub enum IpcErrorKind {
    /// The store or its connection pool could not be reached.
    ConnectionFailure,
    /// A blocking operation ran past its bound.
    Timeout,
    /// A payload, an id or a reply of the store is malformed.
    InvalidData,
    /// A synchronisation primitive was poisoned. Should never happen.
    MemoryAccessError,
    /// An I/O failure that fits none of the kinds above.
    OtherIoError,
    /// Anything else, such as a clock set before the epoch.
    Other,
}

/// Error of this library: a kind that callers can match on, and a text that
/// describes the source of the failure.
#[derive(Debug)]
pub struct IpcError {
    kind: IpcErrorKind,
    error: String,
}

impl IpcError {
    /// Kind of the error, for contracts.
    pub closed spec fn spec_kind(&self) -> IpcErrorKind {
        self.kind
    }

    /// Text of the error, for contracts.
    pub closed spec fn spec_text(&self) -> Seq<char> {
        self.error@
    }

    /// Builds an error of the given kind that carries the given text.
    pub fn new(kind: IpcErrorKind, error: &str) -> (r: IpcError)
        ensures
            r.spec_kind() == kind,
            r.spec_text() == error@,
    {
        IpcError { kind, error: error.to_owned() }
    }

    /// Kind of the error.
    pub fn kind(&self) -> (r: &IpcErrorKind)
        ensures
            *r == self.spec_kind(),
    {
        &self.kind
    }

    /// Consumes the error and hands back its text.
    pub fn into_inner(self) -> (r: String)
        ensures
            r@ == self.spec_text(),
    {
        self.error
    }

    /// Text of the error.
    pub fn get_ref(&self) -> (r: &str)
        ensures
            r@ == self.spec_text(),
    {
        self.error.as_str()
    }
}

} // verus!
