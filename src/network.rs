use vstd::prelude::*;

verus! {

/// Failure of a block-range reader as a whole.
#[derive(Clone, Copy, Debug, PartialEq, Eq, Structural)]
pub enum ReaderError {
    /// The reader stopped before the whole range was read.
    ReadFailed,
}

/// Failure to read one block of a range.
#[derive(Clone, Copy, Debug, PartialEq, Eq, Structural)]
pub enum BlockError {
    /// The storage holds no block under the requested number.
    BlockNotFound,
}

} // verus!
