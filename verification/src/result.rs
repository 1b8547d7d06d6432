//! The error model: a small closed set of kinds, each with the failure that
//! caused it.

use std::path::PathBuf;
use std::sync::mpsc::SendError;
use vstd::prelude::*;
use vstd::std_specs::convert::FromSpecImpl;

verus! {

/// `std::io::Error`, carried through as an opaque value.
#[verifier::external_type_specification]
#[verifier::external_body]
pub struct ExIoError(std::io::Error);

/// `std::sync::mpsc::SendError`, carried through as an opaque value.
#[verifier::external_type_specification]
#[verifier::external_body]
#[verifier::reject_recursive_types(T)]
pub struct ExSendError<T>(std::sync::mpsc::SendError<T>);

/// What went wrong, by kind.
#[derive(Debug, Clone, Copy, PartialEq, Eq, Structural)]
pub enum ErrorKind {
    /// The platform failed to resolve a root or to list a directory.
    File,
    /// A path could not be handed over: the consumer has gone away.
    Channel,
}

/// The failure underneath an [`Error`], kept whole.
#[derive(Debug)]
pub enum Cause {
    /// The platform's own error.
    Io(std::io::Error),
    /// The refused hand-off, with the path that was not delivered.
    Send(SendError<PathBuf>),
}

/// An error of the traversal: its kind, and the failure that caused it.
#[derive(Debug)]
pub struct Error {
    kind: ErrorKind,
    cause: Cause,
}

impl Cause {
    /// The kind of error that this cause gives rise to.
    pub open spec fn kind_spec(self) -> ErrorKind {
        match self {
            Cause::Io(_) => ErrorKind::File,
            Cause::Send(_) => ErrorKind::Channel,
        }
    }
}

impl Error {
    /// The kind of this error.
    pub closed spec fn kind_spec(self) -> ErrorKind {
        self.kind
    }

    /// The failure underneath this error.
    pub closed spec fn cause_spec(self) -> Cause {
        self.cause
    }

    /// An error has the kind of its cause.
    #[verifier::type_invariant]
    closed spec fn wf(self) -> bool {
        self.kind == self.cause.kind_spec()
    }

    /// The error that wraps `cause`.
    pub closed spec fn wrap(cause: Cause) -> Error {
        Error { kind: cause.kind_spec(), cause }
    }

    /// An error is determined by its cause.
    pub proof fn lemma_wrap(cause: Cause)
        ensures
            Error::wrap(cause).cause_spec() == cause,
            Error::wrap(cause).kind_spec() == cause.kind_spec(),
    {
    }

    /// The kind of this error, which is that of its cause.
    pub fn kind(&self) -> (k: ErrorKind)
        ensures
            k == self.kind_spec(),
            k == self.cause_spec().kind_spec(),
    {
        proof {
            use_type_invariant(self);
        }
        self.kind
    }

    /// The failure underneath this error.
    pub fn cause(&self) -> (c: &Cause)
        ensures
            *c == self.cause_spec(),
    {
        &self.cause
    }
}

impl From<std::io::Error> for Error {
    fn from(e: std::io::Error) -> (r: Error) {
        Error { kind: ErrorKind::File, cause: Cause::Io(e) }
    }
}

impl FromSpecImpl<std::io::Error> for Error {
    open spec fn obeys_from_spec() -> bool {
        true
    }

    open spec fn from_spec(e: std::io::Error) -> Error {
        Error::wrap(Cause::Io(e))
    }
}

impl From<SendError<PathBuf>> for Error {
    fn from(e: SendError<PathBuf>) -> (r: Error) {
        Error { kind: ErrorKind::Channel, cause: Cause::Send(e) }
    }
}

impl FromSpecImpl<SendError<PathBuf>> for Error {
    open spec fn obeys_from_spec() -> bool {
        true
    }

    open spec fn from_spec(e: SendError<PathBuf>) -> Error {
        Error::wrap(Cause::Send(e))
    }
}

/// The failure `e` as the result of an operation.
pub fn into_result<T>(e: Error) -> (r: Result<T, Error>)
    ensures
        r == Err::<T, Error>(e),
{
    Err(e)
}

} // verus!
