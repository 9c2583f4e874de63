//! What one read of the memory of a process came to. The read itself is made by
//! the caller; here its result is held against what was asked for.

use crate::error::ReadError;
use vstd::prelude::*;

verus! {

/// The result of one read: all the bytes that were asked for, or a failure.
/// There is nothing in between: a read that gave some of the bytes has failed.
#[derive(Debug, PartialEq, Eq)]
pub enum ReadOutcome {
    Bytes(Vec<u8>),
    Failed(ReadError),
}

impl ReadOutcome {
    /// Whether the read gave its bytes.
    pub open spec fn is_success(&self) -> bool {
        self is Bytes
    }

    /// Whether the outcome is one that a read of `size` bytes can have: the
    /// bytes of a success are `size` in number.
    pub open spec fn answers(&self, size: nat) -> bool {
        match self {
            ReadOutcome::Bytes(bytes) => bytes@.len() == size,
            ReadOutcome::Failed(_) => true,
        }
    }

    /// Whether the read gave its bytes.
    pub fn succeeded(&self) -> (success: bool)
        ensures
            success == self.is_success(),
    {
        match self {
            ReadOutcome::Bytes(_) => true,
            ReadOutcome::Failed(_) => false,
        }
    }
}

/// The outcome of a read of `size` bytes that returned `raw`: a success only
/// where exactly `size` bytes came back. Fewer bytes are a short read, whatever
/// the bytes are; more bytes are no answer to the request either. A failure
/// stays the failure that it is.
pub open spec fn outcome_of(size: nat, raw: Result<Vec<u8>, ReadError>) -> ReadOutcome {
    match raw {
        Ok(bytes) => if bytes@.len() == size {
            ReadOutcome::Bytes(bytes)
        } else if bytes@.len() < size {
            ReadOutcome::Failed(ReadError::ShortRead)
        } else {
            ReadOutcome::Failed(ReadError::Unexpected)
        },
        Err(error) => ReadOutcome::Failed(error),
    }
}

/// Holds what a read of `size` bytes returned against the request, as
/// [`outcome_of`] says.
pub fn classify_read(size: usize, raw: Result<Vec<u8>, ReadError>) -> (outcome: ReadOutcome)
    ensures
        outcome == outcome_of(size as nat, raw),
        outcome.answers(size as nat),
{
    match raw {
        Ok(bytes) => {
            if bytes.len() == size {
                ReadOutcome::Bytes(bytes)
            } else if bytes.len() < size {
                ReadOutcome::Failed(ReadError::ShortRead)
            } else {
                ReadOutcome::Failed(ReadError::Unexpected)
            }
        },
        Err(error) => ReadOutcome::Failed(error),
    }
}

/// A read succeeds exactly when it returned as many bytes as were asked for,
/// and its outcome then holds these bytes.
pub proof fn lemma_success_is_the_full_size(size: nat, raw: Result<Vec<u8>, ReadError>)
    ensures
        outcome_of(size, raw).answers(size),
        outcome_of(size, raw).is_success() <==> (raw is Ok && raw->Ok_0@.len() == size),
        outcome_of(size, raw).is_success() ==> outcome_of(size, raw) == ReadOutcome::Bytes(
            raw->Ok_0,
        ),
{
}

} // verus!
