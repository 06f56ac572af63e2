//! Error taxonomy of the link checker.
//!
//! Source-side failures (`FileNotExist`, `FileReadError`) and report-side
//! failures (`FileWriteError`) are fatal to a run; `UnexpectedError` covers a
//! single URL's transport-level failure and is recovered per URL.

use vstd::prelude::*;
use vstd::string::StringExecFns;

verus! {

/// An error of the link checker, carrying the offending path, URL or detail.
pub enum CustomError {
    UnexpectedError(String),
    FileNotExist(String),
    FileReadError(String),
    FileWriteError(String),
}

impl CustomError {
    /// The one-line description of this error, as a sequence of characters.
    pub open spec fn message_view(self) -> Seq<char> {
        match self {
            CustomError::UnexpectedError(m) => "Unexpected error: "@ + m@,
            CustomError::FileNotExist(m) => "File does not exist: "@ + m@,
            CustomError::FileReadError(m) => "Failed to read file: "@ + m@,
            CustomError::FileWriteError(m) => "Failed to write file: "@ + m@,
        }
    }

    /// Renders the one-line description of this error.
    pub fn message(&self) -> (r: String)
        ensures
            r@ == self.message_view(),
    {
        match self {
            CustomError::UnexpectedError(m) => {
                let mut s = "Unexpected error: ".to_owned();
                s.append(m.as_str());
                s
            },
            CustomError::FileNotExist(m) => {
                let mut s = "File does not exist: ".to_owned();
                s.append(m.as_str());
                s
            },
            CustomError::FileReadError(m) => {
                let mut s = "Failed to read file: ".to_owned();
                s.append(m.as_str());
                s
            },
            CustomError::FileWriteError(m) => {
                let mut s = "Failed to write file: ".to_owned();
                s.append(m.as_str());
                s
            },
        }
    }
}

impl Clone for CustomError {
    /// Clones the error, keeping the variant and the carried detail.
    fn clone(&self) -> (r: Self)
        ensures
            r == *self,
    {
        match self {
            CustomError::UnexpectedError(m) => CustomError::UnexpectedError(m.clone()),
            CustomError::FileNotExist(m) => CustomError::FileNotExist(m.clone()),
            CustomError::FileReadError(m) => CustomError::FileReadError(m.clone()),
            CustomError::FileWriteError(m) => CustomError::FileWriteError(m.clone()),
        }
    }
}

} // verus!
