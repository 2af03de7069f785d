//! The error type shared by every fallible operation of the crate.

use vstd::prelude::*;

verus! {

/// Which kind of failure an error reports.
#[derive(Debug, Clone, Copy, PartialEq, Eq, Structural)]
pub enum ErrorKind {
    Io,
    Dimension,
    Shape,
    InvalidInput,
    Numerical,
    Serialization,
    Csv,
    Touchstone,
}

/// A failure, with its kind and a human-readable message.
#[derive(Debug)]
pub enum VecfitError {
    Io(String),
    Dimension(String),
    Shape(String),
    InvalidInput(String),
    Numerical(String),
    Serialization(String),
    Csv(String),
    Touchstone(String),
}

pub type Result<T> = core::result::Result<T, VecfitError>;

impl Clone for VecfitError {
    fn clone(&self) -> (r: Self)
        ensures
            r == *self,
    {
        match self {
            VecfitError::Io(m) => VecfitError::Io(m.clone()),
            VecfitError::Dimension(m) => VecfitError::Dimension(m.clone()),
            VecfitError::Shape(m) => VecfitError::Shape(m.clone()),
            VecfitError::InvalidInput(m) => VecfitError::InvalidInput(m.clone()),
            VecfitError::Numerical(m) => VecfitError::Numerical(m.clone()),
            VecfitError::Serialization(m) => VecfitError::Serialization(m.clone()),
            VecfitError::Csv(m) => VecfitError::Csv(m.clone()),
            VecfitError::Touchstone(m) => VecfitError::Touchstone(m.clone()),
        }
    }
}

impl VecfitError {
    pub open spec fn kind(self) -> ErrorKind {
        match self {
            VecfitError::Io(_) => ErrorKind::Io,
            VecfitError::Dimension(_) => ErrorKind::Dimension,
            VecfitError::Shape(_) => ErrorKind::Shape,
            VecfitError::InvalidInput(_) => ErrorKind::InvalidInput,
            VecfitError::Numerical(_) => ErrorKind::Numerical,
            VecfitError::Serialization(_) => ErrorKind::Serialization,
            VecfitError::Csv(_) => ErrorKind::Csv,
            VecfitError::Touchstone(_) => ErrorKind::Touchstone,
        }
    }

    pub open spec fn message(self) -> Seq<char> {
        match self {
            VecfitError::Io(m) => m@,
            VecfitError::Dimension(m) => m@,
            VecfitError::Shape(m) => m@,
            VecfitError::InvalidInput(m) => m@,
            VecfitError::Numerical(m) => m@,
            VecfitError::Serialization(m) => m@,
            VecfitError::Csv(m) => m@,
            VecfitError::Touchstone(m) => m@,
        }
    }

    /// An error of the given kind carrying `message`.
    pub fn new(kind: ErrorKind, message: String) -> (e: VecfitError)
        ensures
            e.kind() == kind,
            e.message() == message@,
    {
        match kind {
            ErrorKind::Io => VecfitError::Io(message),
            ErrorKind::Dimension => VecfitError::Dimension(message),
            ErrorKind::Shape => VecfitError::Shape(message),
            ErrorKind::InvalidInput => VecfitError::InvalidInput(message),
            ErrorKind::Numerical => VecfitError::Numerical(message),
            ErrorKind::Serialization => VecfitError::Serialization(message),
            ErrorKind::Csv => VecfitError::Csv(message),
            ErrorKind::Touchstone => VecfitError::Touchstone(message),
        }
    }
}

/// `r` failed with an error of `kind` whose message is `msg`.
pub open spec fn fails_with<T>(r: core::result::Result<T, VecfitError>, kind: ErrorKind, msg: Seq<char>) -> bool {
    &&& r is Err
    &&& r->Err_0.kind() == kind
    &&& r->Err_0.message() == msg
}

/// An error of `kind` whose message is a copy of `msg`.
pub fn error_from(kind: ErrorKind, msg: &str) -> (e: VecfitError)
    ensures
        e.kind() == kind,
        e.message() == msg@,
{
    VecfitError::new(kind, String::from_str(msg))
}

} // verus!
