//! The error taxonomy shared by every component.
use vstd::prelude::*;

verus! {

/// Why an operation was refused or given up.
#[derive(Clone, Copy, Debug, PartialEq, Eq, Structural)]
pub enum DropletError {
    /// A malformed request: a missing field, a column-hash mismatch on push,
    /// a batch whose first four columns are not the sample-key columns.
    InvalidArgument,
    /// An unknown path id, table or column, or no storage node to route to.
    NotFound,
    /// An I/O failure that leaves the partition usable.
    Transient,
    /// A failure after which the partition is not marked complete.
    Fatal,
}

impl DropletError {
    /// The status code under which the error is reported to a caller over
    /// RPC: 3 for an invalid argument, 5 for what was not found, 14 for
    /// what may be tried again, and 13, an internal error, for what is
    /// fatal.
    pub fn status_code(&self) -> (code: u8)
        ensures
            code == match *self {
                DropletError::InvalidArgument => 3u8,
                DropletError::NotFound => 5u8,
                DropletError::Transient => 14u8,
                DropletError::Fatal => 13u8,
            },
    {
        match self {
            DropletError::InvalidArgument => 3,
            DropletError::NotFound => 5,
            DropletError::Transient => 14,
            DropletError::Fatal => 13,
        }
    }

    /// The variant's name, for messages.
    pub fn name(&self) -> (s: &'static str)
        ensures
            s@ == match *self {
                DropletError::InvalidArgument => "InvalidArgument"@,
                DropletError::NotFound => "NotFound"@,
                DropletError::Transient => "Transient"@,
                DropletError::Fatal => "Fatal"@,
            },
    {
        match self {
            DropletError::InvalidArgument => "InvalidArgument",
            DropletError::NotFound => "NotFound",
            DropletError::Transient => "Transient",
            DropletError::Fatal => "Fatal",
        }
    }
}

} // verus!
