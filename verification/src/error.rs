//! Error types used throughout the library.

use vstd::prelude::*;

verus! {

/// All errors that the path processing modules can report.
#[derive(Debug, Clone)]
pub enum PathError {
    /// The SVG path text does not conform to the grammar.  Carries the
    /// character position at which parsing failed.
    Parse(usize),
    /// Fitting a curve to the sampled offset points failed.
    FitCurve,
    /// Cleaning the offset path produced no contour.
    CleanPath,
    /// A byte-stream read failed while acquiring path text.  Carries the
    /// reader's own message.  Built by callers that do I/O; the library
    /// itself never constructs it.
    Io(String),
}

impl PathError {
    /// The message that a diagnostic for this error starts with.
    pub open spec fn spec_describe(&self) -> Seq<char> {
        match self {
            PathError::Parse(_) => "failed to parse SVG path data"@,
            PathError::FitCurve => "failed to fit a curve to the points"@,
            PathError::CleanPath => "failed to clean the path"@,
            PathError::Io(_) => "I/O error"@,
        }
    }

    /// A short human-readable description of the error.
    pub fn describe(&self) -> (r: String)
        ensures
            r@ == self.spec_describe(),
    {
        match self {
            PathError::Parse(_) => String::from_str("failed to parse SVG path data"),
            PathError::FitCurve => String::from_str("failed to fit a curve to the points"),
            PathError::CleanPath => String::from_str("failed to clean the path"),
            PathError::Io(_) => String::from_str("I/O error"),
        }
    }
}

} // verus!
