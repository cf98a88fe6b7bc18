//! Why a transformation stopped.

use vstd::prelude::*;
use vstd::std_specs::convert::FromSpecImpl;

verus! {

/// The reason a trace could not be transformed. Every one is final: nothing
/// is produced for a trace that gives one.
#[derive(Debug)]
pub enum TransformError {
    /// The CSV reader refused the input, or the CSV writer a record.
    Csv(csv::Error),
    /// A tracked column of a data row is absent or is not the decimal text of
    /// an unsigned 64-bit integer. `row` counts data rows from zero, `column`
    /// counts columns from one.
    IntParse { row: usize, column: usize },
    /// A running total no longer fits in 64 bits at this row and column.
    Overflow { row: usize, column: usize },
    /// A validation failure, described in words.
    Message(String),
}

impl From<csv::Error> for TransformError {
    fn from(err: csv::Error) -> (e: TransformError) {
        TransformError::Csv(err)
    }
}

impl FromSpecImpl<csv::Error> for TransformError {
    open spec fn obeys_from_spec() -> bool {
        true
    }

    open spec fn from_spec(err: csv::Error) -> TransformError {
        TransformError::Csv(err)
    }
}

impl From<String> for TransformError {
    fn from(err: String) -> (e: TransformError) {
        TransformError::Message(err)
    }
}

impl FromSpecImpl<String> for TransformError {
    open spec fn obeys_from_spec() -> bool {
        true
    }

    open spec fn from_spec(err: String) -> TransformError {
        TransformError::Message(err)
    }
}

} // verus!
