//! Error taxonomy of the telemetry core.

use vstd::prelude::*;

verus! {

/// Why a load or a store operation failed.
///
/// `UnsupportedFormat`: the file name ends in neither `.csv` nor `.json`.
/// `RecordParse`: a header, row or element of the source could not be read
/// as a canonical record; the whole load fails and no partial result exists.
/// `StorageIo`: the backing storage could not be reached; reported by the
/// unverified edge that performs file input and output.
#[derive(Clone, Copy, PartialEq, Eq, Structural, Debug)]
pub enum LoadError {
    UnsupportedFormat,
    RecordParse,
    StorageIo,
}

impl LoadError {
    /// A stable, human-readable description of the error.
    pub fn describe(&self) -> (r: &'static str)
        ensures
            *self == LoadError::UnsupportedFormat ==> r@ == "unsupported file format: use .csv or .json"@,
            *self == LoadError::RecordParse ==> r@ == "malformed record in source data"@,
            *self == LoadError::StorageIo ==> r@ == "backing storage unavailable"@,
    {
        match self {
            LoadError::UnsupportedFormat => "unsupported file format: use .csv or .json",
            LoadError::RecordParse => "malformed record in source data",
            LoadError::StorageIo => "backing storage unavailable",
        }
    }
}

} // verus!
