//! The fatal errors of a run: everything recoverable is accounted in the
//! result accumulator instead.

use vstd::prelude::*;
use vstd::string::StringExecFns;

verus! {

/// A failure that aborts the whole run.
#[derive(Debug)]
pub enum SquishError {
    /// The root directory itself could not be listed.
    ScanError { message: String },
    /// The chosen output location does not exist.
    MissingOutputDirectory { out: String },
    /// Every candidate output directory was exhausted without an open file.
    FileCreationExhausted { filename: String },
}

impl SquishError {
    /// The message a user sees for this error.
    pub open spec fn message_view(&self) -> Seq<char> {
        match self {
            SquishError::ScanError { message } => message@,
            SquishError::MissingOutputDirectory { out } => "No such file or directory: "@ + out@,
            SquishError::FileCreationExhausted { filename } => "Failed to create file: "@
                + filename@,
        }
    }

    /// Render the error as its user-visible message.
    pub fn message(&self) -> (r: String)
        ensures
            r@ == self.message_view(),
    {
        match self {
            SquishError::ScanError { message } => message.clone(),
            SquishError::MissingOutputDirectory { out } => {
                let mut m = String::from_str("No such file or directory: ");
                m.append(out.as_str());
                m
            },
            SquishError::FileCreationExhausted { filename } => {
                let mut m = String::from_str("Failed to create file: ");
                m.append(filename.as_str());
                m
            },
        }
    }
}

} // verus!
