//! The ways in which a benchmark ends before any read was timed, and the ways
//! in which opening the memory of a process or one read of it fails.

use vstd::prelude::*;

verus! {

/// Why the benchmark cannot run at all.
#[derive(Clone, Copy, Debug, PartialEq, Eq, Structural)]
pub enum BenchmarkError {
    /// No process to measure was found.
    ProcessNotFound,
    /// The process has no address to read: its region map gave no sample.
    NoAddressesSampled,
}

/// The handle to the memory of the process could not be opened.
#[derive(Clone, Copy, Debug, PartialEq, Eq, Structural)]
pub struct OpenError;

/// Why one read gave no bytes.
#[derive(Clone, Copy, Debug, PartialEq, Eq, Structural)]
pub enum ReadError {
    /// The handle could not be moved to the address.
    SeekFailure,
    /// Fewer bytes than asked for could be read.
    ShortRead,
    /// The process may not be read at the address.
    PermissionFailure,
    /// The read failed in another way, or gave more bytes than asked for.
    Unexpected,
}

impl BenchmarkError {
    /// The text that tells a person what went wrong.
    pub open spec fn message_text(self) -> Seq<char> {
        match self {
            BenchmarkError::ProcessNotFound => "Error: hackmud process not found"@,
            BenchmarkError::NoAddressesSampled => "Error: No heap addresses found"@,
        }
    }

    /// The text that tells a person what went wrong.
    pub fn message(&self) -> (text: String)
        ensures
            text@ == self.message_text(),
    {
        match self {
            BenchmarkError::ProcessNotFound => String::from_str("Error: hackmud process not found"),
            BenchmarkError::NoAddressesSampled => String::from_str(
                "Error: No heap addresses found",
            ),
        }
    }
}

} // verus!
