//! The error taxonomy of the engine.

use vstd::prelude::*;

verus! {

/// A failure that ends the current top-level call.
#[derive(Debug)]
pub enum OxrsError {
    /// The caller broke a precondition of the call.
    InvalidArgument(String),
    /// The data source failed to open, read or rasterize.
    Gdal(String),
    /// An internal invariant does not hold.
    Runtime(String),
}

/// The two classes under which a failure is reported to the caller.
#[derive(Debug, Clone, Copy, PartialEq, Eq, Structural)]
pub enum ErrorCategory {
    /// The input was bad.
    BadInput,
    /// Anything else.
    Runtime,
}

impl OxrsError {
    /// The message carried by the error, without the prefix of its class.
    pub open spec fn detail(&self) -> Seq<char> {
        match self {
            OxrsError::InvalidArgument(m) => m@,
            OxrsError::Gdal(m) => m@,
            OxrsError::Runtime(m) => m@,
        }
    }

    /// The class of the error as the caller sees it.
    pub open spec fn spec_category(&self) -> ErrorCategory {
        match self {
            OxrsError::InvalidArgument(_) => ErrorCategory::BadInput,
            _ => ErrorCategory::Runtime,
        }
    }

    /// The prefix that the class of the error puts before its message.
    pub open spec fn prefix(&self) -> Seq<char> {
        match self {
            OxrsError::InvalidArgument(_) => "invalid argument: "@,
            OxrsError::Gdal(_) => "GDAL error: "@,
            OxrsError::Runtime(_) => "runtime error: "@,
        }
    }

    /// An invalid argument with the message `text`.
    pub open spec fn is_invalid_argument(&self, text: Seq<char>) -> bool {
        self matches OxrsError::InvalidArgument(m) && m@ == text
    }

    /// A runtime error with the message `text`.
    pub open spec fn is_runtime(&self, text: Seq<char>) -> bool {
        self matches OxrsError::Runtime(m) && m@ == text
    }

    /// Only an invalid argument is reported as bad input.
    pub fn category(&self) -> (c: ErrorCategory)
        ensures
            c == self.spec_category(),
    {
        match self {
            OxrsError::InvalidArgument(_) => ErrorCategory::BadInput,
            OxrsError::Gdal(_) => ErrorCategory::Runtime,
            OxrsError::Runtime(_) => ErrorCategory::Runtime,
        }
    }

    /// The message carried by the error.
    pub fn message(&self) -> (m: &str)
        ensures
            m@ == self.detail(),
    {
        match self {
            OxrsError::InvalidArgument(m) => m.as_str(),
            OxrsError::Gdal(m) => m.as_str(),
            OxrsError::Runtime(m) => m.as_str(),
        }
    }

    /// The full text of the error: the prefix of its class, then its message.
    pub fn to_text(&self) -> (t: String)
        ensures
            t@ == self.prefix() + self.detail(),
    {
        let head = match self {
            OxrsError::InvalidArgument(_) => "invalid argument: ",
            OxrsError::Gdal(_) => "GDAL error: ",
            OxrsError::Runtime(_) => "runtime error: ",
        };
        let mut t = String::from_str(head);
        t.append(self.message());
        t
    }
}

} // verus!
