//! How a run ends.

use vstd::prelude::*;
use crate::error::AppError;

verus! {

/// The exit status of a run that ended without fault.
pub const EXIT_CLEAN: u8 = 0;

/// The exit status of a run that was given up.
pub const EXIT_FAILURE: u8 = 1;

/// What is left of an outcome once the benign error is forgiven: success
/// stays success, a closed output pipe counts as success, and every other
/// error stays as it is.
pub open spec fn settled(outcome: Result<(), AppError>) -> Result<(), AppError> {
    match outcome {
        Ok(()) => Ok(()),
        Err(e) => if e.benign() {
            Ok(())
        } else {
            Err(e)
        },
    }
}

/// Decides how a run ends: an error that is returned is to be reported, and
/// nothing is reported otherwise.
pub fn settle(outcome: Result<(), AppError>) -> (end: Result<(), AppError>)
    ensures
        end == settled(outcome),
{
    match outcome {
        Ok(()) => Ok(()),
        Err(e) => if e.is_benign() {
            Ok(())
        } else {
            Err(e)
        },
    }
}

/// The exit status of a run with the given outcome: clean on success and
/// on a closed output pipe, failure on every other error.
pub fn exit_status(outcome: Result<(), AppError>) -> (status: u8)
    ensures
        status == if settled(outcome) is Ok {
            EXIT_CLEAN
        } else {
            EXIT_FAILURE
        },
{
    match settle(outcome) {
        Ok(()) => EXIT_CLEAN,
        Err(_) => EXIT_FAILURE,
    }
}

} // verus!
