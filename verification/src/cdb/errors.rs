//! The failures a database operation can report.

use vstd::prelude::*;

verus! {

/// Why an operation on a database failed.
#[derive(Copy, Clone, Debug, PartialEq, Eq, Structural)]
pub enum CDBError {
    /// Opening, reading, writing, seeking or mapping the underlying file
    /// failed. Nothing in this crate touches a file; the kind is here for
    /// callers that load or store one.
    Io,
    /// The bytes do not have the shape of a database: an offset leads
    /// outside the file, or a record runs past its end.
    Corrupt,
    /// A value is larger than the caller allows.
    ValueTooLarge { max_size: usize, val_size: usize },
}

impl CDBError {
    /// The error for a value of `val_size` bytes where at most `max_size`
    /// are allowed.
    pub fn value_too_large(max_size: usize, val_size: usize) -> (e: CDBError)
        ensures
            e == (CDBError::ValueTooLarge { max_size, val_size }),
    {
        CDBError::ValueTooLarge { max_size, val_size }
    }
}

} // verus!
