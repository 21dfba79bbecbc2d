use vstd::prelude::*;

verus! {

/// The ways an operation of the chain, the mempool or the machine can fail.
#[derive(Clone, Copy, Debug, PartialEq, Eq)]
pub enum McError {
    /// A block at this height is already in the chain; its hash is given.
    BlockAlreadyExists(crate::hash::Hash),
    /// A block was refused; the reason says which rule it broke.
    InvalidBlock(BlockFault),
    /// A transaction lacks a key or a signature, or its signature is invalid.
    InvalidTransaction,
    /// No block is stored at this height.
    StorageMiss(u32),
    /// Stored or received bytes are not an encoding.
    Undecodable,
    /// A range reaches past the end of the chain.
    RangeOutOfBounds,
    /// A pending transaction was never timestamped.
    MempoolUntimed,
    /// The stack machine met operands it cannot combine.
    InvalidStackItems,
    /// An arithmetic instruction overflowed or divided by zero.
    ArithmeticFault,
    /// A key is missing from the state.
    MissingKey,
}

impl McError {
    /// A block that is already held: the answer to a replay, which is dropped
    /// without a word.
    pub fn is_replay(&self) -> (r: bool)
        ensures
            r == (self matches McError::BlockAlreadyExists(_)),
    {
        match self {
            McError::BlockAlreadyExists(_) => true,
            _ => false,
        }
    }
}

/// Why a block was refused.
#[derive(Clone, Copy, Debug, PartialEq, Eq)]
pub enum BlockFault {
    HeightMismatch,
    BadPreviousHash,
    MissingSignature,
    MissingValidator,
    BadSignature,
    BadTransaction,
    BadDataHash,
}

} // verus!
