//! Error type shared by the codec and the storage engine.

use vstd::prelude::*;

verus! {

/// What went wrong. `NotFound`: no note with the requested id resolves to a
/// file. `InvalidFormat`: the targeted file is not a well-formed note record.
/// `IoFailure`: the filesystem refused an operation (reported by the caller
/// that performed it).
#[derive(Clone, Copy, PartialEq, Eq, Structural, Debug)]
pub enum ErrorKind {
    NotFound,
    InvalidFormat,
    IoFailure,
}

/// An operation failure, carried back to the route layer.
#[derive(Debug)]
pub struct AppError {
    pub kind: ErrorKind,
    pub message: String,
}

impl AppError {
    pub fn not_found() -> (r: Self)
        ensures
            r.kind == ErrorKind::NotFound,
    {
        AppError { kind: ErrorKind::NotFound, message: String::from_str("note not found") }
    }

    pub fn invalid_format() -> (r: Self)
        ensures
            r.kind == ErrorKind::InvalidFormat,
    {
        AppError { kind: ErrorKind::InvalidFormat, message: String::from_str("invalid note format") }
    }

    pub fn io_failure() -> (r: Self)
        ensures
            r.kind == ErrorKind::IoFailure,
    {
        AppError { kind: ErrorKind::IoFailure, message: String::from_str("filesystem operation failed") }
    }
}

} // verus!
