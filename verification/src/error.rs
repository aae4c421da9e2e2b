//! The failures that the pipeline distinguishes.

use vstd::prelude::*;
use vstd::string::StringExecFns;

verus! {

/// A failure of a row, of a batch or of a job.
#[derive(Debug, Clone, PartialEq, Eq)]
pub enum Error {
    /// The line does not have the shape that its record type asks for.
    MalformedRecord,
    /// The line starts with a tag that is neither the quote nor the trade tag.
    UnsupportedRecordType,
    /// A field of a numerical column is not a number of the column's type.
    NumericParseError { column: usize, raw_value: String },
    /// The line has too few tokens to hold a symbol.
    SymbolExtractionError,
    /// A frame disagrees with the schema that the sink was opened with, or
    /// its columns disagree with each other.
    SchemaMismatch,
    /// Reading the line source or writing to a sink failed.
    IoError { cause: String },
    /// A capacity or a worker budget that is not positive.
    ConfigError,
}

/// The mathematical value of an [`Error`]: strings are taken by their characters.
pub enum Fault {
    MalformedRecord,
    UnsupportedRecordType,
    NumericParseError { column: int, raw_value: Seq<char> },
    SymbolExtractionError,
    SchemaMismatch,
    IoError { cause: Seq<char> },
    ConfigError,
}

impl View for Error {
    type V = Fault;

    open spec fn view(&self) -> Fault {
        match self {
            Error::MalformedRecord => Fault::MalformedRecord,
            Error::UnsupportedRecordType => Fault::UnsupportedRecordType,
            Error::NumericParseError { column, raw_value } => Fault::NumericParseError {
                column: *column as int,
                raw_value: raw_value@,
            },
            Error::SymbolExtractionError => Fault::SymbolExtractionError,
            Error::SchemaMismatch => Fault::SchemaMismatch,
            Error::IoError { cause } => Fault::IoError { cause: cause@ },
            Error::ConfigError => Fault::ConfigError,
        }
    }
}

impl Fault {
    /// Whether the failure concerns one row only: the row is dropped and the
    /// stream goes on.
    pub open spec fn is_row_fault(self) -> bool {
        self is MalformedRecord || self is UnsupportedRecordType || self is NumericParseError
    }
}

impl Error {
    /// A copy of the error.
    pub fn duplicate(&self) -> (r: Error)
        ensures
            r@ == self@,
    {
        match self {
            Error::MalformedRecord => Error::MalformedRecord,
            Error::UnsupportedRecordType => Error::UnsupportedRecordType,
            Error::NumericParseError { column, raw_value } => Error::NumericParseError {
                column: *column,
                raw_value: raw_value.clone(),
            },
            Error::SymbolExtractionError => Error::SymbolExtractionError,
            Error::SchemaMismatch => Error::SchemaMismatch,
            Error::IoError { cause } => Error::IoError { cause: cause.clone() },
            Error::ConfigError => Error::ConfigError,
        }
    }
}

} // verus!
