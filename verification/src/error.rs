use vstd::prelude::*;

verus! {

/// The errors reported by the library.
#[derive(Debug, Clone, PartialEq, Eq)]
pub enum Error {
    /// An argument did not meet the requirements of the operation.
    InvalidArgument(String),
    /// A key was inserted twice where keys must be unique.
    UnexpectedDuplicate,
    /// The target of an operation is not of the expected kind.
    InvalidTarget(String),
    /// The project is not consistent.
    ProjectError(String),
    /// A back-end could not complete an operation.
    BackEndError(String),
    /// A file or directory could not be accessed.
    FileIOError(String),
    /// A declaration does not match the interface it must provide.
    InterfaceError(String),
}

/// The kind of an error, without its message.
pub enum ErrorKind {
    InvalidArgument,
    UnexpectedDuplicate,
    InvalidTarget,
    ProjectError,
    BackEndError,
    FileIOError,
    InterfaceError,
}

impl Error {
    /// The kind of this error.
    pub open spec fn kind(self) -> ErrorKind {
        match self {
            Error::InvalidArgument(_) => ErrorKind::InvalidArgument,
            Error::UnexpectedDuplicate => ErrorKind::UnexpectedDuplicate,
            Error::InvalidTarget(_) => ErrorKind::InvalidTarget,
            Error::ProjectError(_) => ErrorKind::ProjectError,
            Error::BackEndError(_) => ErrorKind::BackEndError,
            Error::FileIOError(_) => ErrorKind::FileIOError,
            Error::InterfaceError(_) => ErrorKind::InterfaceError,
        }
    }
}

/// An `InvalidArgument` error carrying the given fixed message.
pub fn invalid_argument(msg: &str) -> (e: Error)
    ensures
        e is InvalidArgument,
        e->InvalidArgument_0@ == msg@,
{
    Error::InvalidArgument(String::from_str(msg))
}

} // verus!
