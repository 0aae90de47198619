use vstd::prelude::*;

verus! {

/// The error taxonomy of the API. Each kind maps to one HTTP status.
#[derive(Debug, Clone, Copy, PartialEq, Eq)]
pub enum Error {
    /// Missing or insufficient identity for a gated read or write.
    Unauthorized,
    /// Identity present but the action is not allowed.
    Forbidden,
    /// Unknown site, page or comment.
    NotFound,
    /// The payload is well formed but semantically invalid.
    UnprocessableEntity(&'static str),
    /// A failure of the persistence layer that is not a missing row.
    Storage,
    /// A payload that is not the JSON that was expected.
    Json,
    /// A malformed request: a bad cursor, bad base64, a bad signature.
    BadRequest(&'static str),
}

/// The HTTP status code that an error kind is answered with.
pub open spec fn status_of(e: Error) -> u16 {
    match e {
        Error::Unauthorized => 401,
        Error::Forbidden => 403,
        Error::NotFound => 404,
        Error::UnprocessableEntity(_) => 422,
        Error::Storage => 500,
        Error::Json => 400,
        Error::BadRequest(_) => 400,
    }
}

impl Error {
    pub fn status_code(&self) -> (r: u16)
        ensures
            r == status_of(*self),
    {
        match self {
            Error::Unauthorized => 401,
            Error::Forbidden => 403,
            Error::NotFound => 404,
            Error::UnprocessableEntity(_) => 422,
            Error::Storage => 500,
            Error::Json => 400,
            Error::BadRequest(_) => 400,
        }
    }
}

} // verus!
