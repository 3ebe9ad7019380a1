//! Error taxonomy of the extraction core. All four variants are fatal to the
//! fetch loop: none is retried at this level.

use vstd::prelude::*;

verus! {

/// What went wrong while extracting rows.
#[derive(PartialEq, Eq, Structural, Clone, Copy, Debug)]
pub enum ExtractError {
    /// The data source could not report column metadata.
    Schema,
    /// The requested buffer capacity cannot be satisfied (size overflow).
    Allocation,
    /// The data source failed while fetching a batch.
    Fetch,
    /// The output sink refused a write.
    Serialization,
}

impl ExtractError {
    /// A short, stable description, suitable for reporting to a caller.
    pub fn describe(&self) -> (r: &'static str)
        ensures
            self is Schema ==> r@ == "column metadata unavailable"@,
            self is Allocation ==> r@ == "row buffer sizing impossible"@,
            self is Fetch ==> r@ == "data source failed while fetching"@,
            self is Serialization ==> r@ == "output sink write failed"@,
    {
        match self {
            ExtractError::Schema => "column metadata unavailable",
            ExtractError::Allocation => "row buffer sizing impossible",
            ExtractError::Fetch => "data source failed while fetching",
            ExtractError::Serialization => "output sink write failed",
        }
    }
}

} // verus!
