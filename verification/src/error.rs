//! What can end a run before its output is complete.

use vstd::prelude::*;

verus! {

/// How an input or output operation failed.
#[derive(Debug, Clone, Copy, PartialEq, Eq, Structural)]
pub enum IoFailure {
    /// The reader of the output closed its end of the pipe.
    BrokenPipe,
    /// Any other failure to read the input or to write the output.
    Other,
}

/// Why a run was given up.
#[derive(Debug, Clone, Copy, PartialEq, Eq, Structural)]
pub enum AppError {
    /// The selected field of a line is not the text of a number.
    ParseError,
    /// A line has no field at the selected position.
    IndexError,
    /// Reading the input or writing the output failed.
    IoError(IoFailure),
}

impl AppError {
    /// True of the one error that ends a run without fault: the output was
    /// cut short because its reader went away.
    pub open spec fn benign(self) -> bool {
        self == AppError::IoError(IoFailure::BrokenPipe)
    }

    /// Tells whether this error ends the run without fault.
    pub fn is_benign(&self) -> (benign: bool)
        ensures
            benign == self.benign(),
    {
        match self {
            AppError::IoError(IoFailure::BrokenPipe) => true,
            _ => false,
        }
    }
}

} // verus!
