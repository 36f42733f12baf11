use vstd::prelude::*;
use crate::range::RangeError;

verus! {

/// Every way in which a request can fail.
#[derive(Clone, Copy, Debug, PartialEq, Eq, Structural)]
pub enum ServeError {
    PathTraversalRejected,
    PathNotFound,
    DirectoryReadFailed,
    RangeMalformed,
    RangeUnsatisfiable,
    StreamIoFailed,
    PermissionDenied,
}

pub open spec fn status_of(e: ServeError) -> u16 {
    match e {
        ServeError::PathTraversalRejected => 400,
        ServeError::PathNotFound => 404,
        ServeError::DirectoryReadFailed => 500,
        ServeError::RangeMalformed => 400,
        ServeError::RangeUnsatisfiable => 416,
        ServeError::StreamIoFailed => 500,
        ServeError::PermissionDenied => 403,
    }
}

pub open spec fn serve_error_of_range(e: RangeError) -> ServeError {
    match e {
        RangeError::Unsatisfiable { .. } => ServeError::RangeUnsatisfiable,
        _ => ServeError::RangeMalformed,
    }
}

impl ServeError {
    /// The HTTP status that answers this error.
    pub fn status(&self) -> (r: u16)
        ensures
            r == status_of(*self),
    {
        match self {
            ServeError::PathTraversalRejected => 400,
            ServeError::PathNotFound => 404,
            ServeError::DirectoryReadFailed => 500,
            ServeError::RangeMalformed => 400,
            ServeError::RangeUnsatisfiable => 416,
            ServeError::StreamIoFailed => 500,
            ServeError::PermissionDenied => 403,
        }
    }

    /// The error that answers a rejected `Range` header.
    pub fn from_range_error(e: RangeError) -> (r: ServeError)
        ensures
            r == serve_error_of_range(e),
            status_of(r) == (if e is Unsatisfiable { 416u16 } else { 400u16 }),
    {
        match e {
            RangeError::Unsatisfiable { .. } => ServeError::RangeUnsatisfiable,
            _ => ServeError::RangeMalformed,
        }
    }
}

} // verus!
