//! The error type of the library.
use vstd::prelude::*;

verus! {

/// What went wrong, with a message for the user.
#[derive(Debug)]
pub enum AppError {
    /// The request itself is invalid.
    BadRequest(String),
    /// A file or document does not exist.
    NotFound(String),
    /// Rendering or conversion failed.
    Conversion(String),
}

impl AppError {
    /// The message of the error.
    pub open spec fn spec_message(&self) -> Seq<char> {
        match self {
            AppError::BadRequest(m) => m@,
            AppError::NotFound(m) => m@,
            AppError::Conversion(m) => m@,
        }
    }

    /// The message of the error, as shown to the user.
    pub fn message(&self) -> (m: String)
        ensures
            m@ == self.spec_message(),
    {
        match self {
            AppError::BadRequest(m) => m.clone(),
            AppError::NotFound(m) => m.clone(),
            AppError::Conversion(m) => m.clone(),
        }
    }
}

/// An error as its kind (0 bad request, 1 not found, 2 conversion) and message.
pub open spec fn error_view(e: AppError) -> (u8, Seq<char>) {
    match e {
        AppError::BadRequest(m) => (0, m@),
        AppError::NotFound(m) => (1, m@),
        AppError::Conversion(m) => (2, m@),
    }
}

/// A bad-request error with the given message.
pub open spec fn bad_request(m: Seq<char>) -> (u8, Seq<char>) {
    (0, m)
}

/// A conversion error with the given message.
pub open spec fn conversion(m: Seq<char>) -> (u8, Seq<char>) {
    (2, m)
}

/// A text result as characters, its error by `error_view`.
pub open spec fn text_result(r: Result<String, AppError>) -> Result<Seq<char>, (u8, Seq<char>)> {
    match r {
        Ok(s) => Ok(s@),
        Err(e) => Err(error_view(e)),
    }
}

} // verus!
