//! The settings of a run.

use vstd::prelude::*;
use crate::error::AppError;
use crate::record::{ingest, ingested, texts, Records};

verus! {

/// The three settings of a run, fixed when it starts.
#[derive(Debug, Clone, Copy)]
pub struct Density {
    /// Whether diagnostics are wanted.
    pub verbose: bool,
    /// The zero-based position of the field that holds the weight.
    pub field_pos: usize,
    /// Whether the two ratios are shown as percentages.
    pub percentage: bool,
}

impl Default for Density {
    /// The first field is the weight, ratios are shown as fractions, and no
    /// diagnostics are wanted.
    fn default() -> (settings: Density)
        ensures
            settings == (Density { verbose: false, field_pos: 0, percentage: false }),
    {
        Density { verbose: false, field_pos: 0, percentage: false }
    }
}

impl Density {
    /// The factor by which both ratios are multiplied before they are
    /// written: 100 for percentages, and 1 otherwise.
    pub open spec fn factor(&self) -> nat {
        if self.percentage {
            100
        } else {
            1
        }
    }

    /// The factor by which both ratios are multiplied before they are
    /// written.
    pub fn scale(&self) -> (factor: u32)
        ensures
            factor == self.factor(),
    {
        if self.percentage {
            100
        } else {
            1
        }
    }

    /// Reads `lines` in order, with the weight of each taken from the field
    /// that these settings select.
    pub fn ingest(&self, lines: Vec<String>) -> (outcome: Result<Records, AppError>)
        ensures
            match ingested(texts(lines@), self.field_pos as nat) {
                Ok(records) => outcome matches Ok(read) && read.valid() && read@ == records
                    && read.field_pos() == self.field_pos,
                Err(e) => outcome == Err::<Records, AppError>(e),
            },
            outcome matches Ok(read) ==> read@.len() == lines.len() && forall|i: int|
                0 <= i < lines.len() ==> (#[trigger] read@[i]).line == lines[i]@,
    {
        ingest(lines, self.field_pos)
    }
}

/// Percentages are a hundred times the fractions: turning the percentage
/// setting on multiplies the factor by one hundred, whatever the other
/// settings are.
pub proof fn lemma_percentage_factor(settings: Density)
    ensures
        (Density { percentage: true, ..settings }).factor() == 100 * (Density {
            percentage: false,
            ..settings
        }).factor(),
{
}

} // verus!
