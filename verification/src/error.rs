//! The ways in which a heap operation can fail, and the result type that
//! carries them.

use vstd::prelude::*;

verus! {

/// Why a heap or chunk operation was refused.
#[derive(Debug, Clone, Copy, PartialEq, Eq)]
pub enum HeapError {
    /// More bytes were requested than the heap has free: `(requested, available)`.
    MemoryOverflow(usize, usize),
    /// A heap was asked for with too small a capacity; the payload is the
    /// least capacity that is accepted.
    MemoryUnderflow(usize),
    /// Merging free chunks broke the chain. The merging code is proved never
    /// to report it; the variant is kept for callers that match on every kind.
    CoalesceError,
    /// No single free chunk can hold the request although enough bytes are
    /// free in total, or a split was asked for that leaves no remainder.
    FragmentationError,
    /// The storage provider had no block to give.
    ChunkInitError,
    /// The size and alignment of a block do not describe a block that can
    /// exist.
    ChunkLayoutError,
    /// An argument was zero, too large, or named nothing: `(value, operation)`.
    InvalidInputError(usize, &'static str),
}

/// Success with a value, or failure with the reason.
#[derive(Debug, PartialEq, Eq)]
pub enum HeapResult<T> {
    Success(T),
    Failure(HeapError),
}

impl<T> HeapResult<T> {
    /// The value of a success. Calling it on a failure is a caller's error.
    pub fn unwrap(self) -> (val: T)
        requires
            self is Success,
        ensures
            self == HeapResult::Success(val),
    {
        match self {
            HeapResult::Success(val) => val,
            HeapResult::Failure(_) => unreached(),
        }
    }

    /// Whether this is a success.
    pub fn is_success(&self) -> (b: bool)
        ensures
            b == (self is Success),
    {
        match self {
            HeapResult::Success(_) => true,
            HeapResult::Failure(_) => false,
        }
    }
}

} // verus!
