//! The read API's error classes and their HTTP status codes.

use vstd::prelude::*;

verus! {

/// Why a read API request failed.
#[derive(Debug, Clone, Copy, PartialEq, Eq, Structural)]
pub enum ApiError {
    /// The request's shape is invalid.
    BadRequest,
    /// The item, tag or entity does not exist.
    NotFound,
    /// The store failed.
    Store,
}

impl ApiError {
    /// The HTTP status code of the error.
    pub fn status_code(&self) -> (r: u16)
        ensures
            r == match *self {
                ApiError::BadRequest => 400u16,
                ApiError::NotFound => 404u16,
                ApiError::Store => 500u16,
            },
    {
        match self {
            ApiError::BadRequest => 400,
            ApiError::NotFound => 404,
            ApiError::Store => 500,
        }
    }
}

} // verus!
