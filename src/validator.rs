use vstd::prelude::*;
use crate::block::{header_hash, verify_outcome, Block, BlockHeader, BlockView};
use crate::blockchain::{Blockchain, Storage};
use crate::error::{BlockFault, McError};

verus! {

/// The admission rules of a block against a chain's headers, in order.
/// The duplicate case is told apart by `validate_outcome`, which also names
/// the block's hash.
pub open spec fn validate_spec(headers: Seq<BlockHeader>, b: BlockView) -> Result<(), McError> {
    let len = headers.len();
    if b.header.height < len {
        Err(McError::InvalidBlock(BlockFault::HeightMismatch))
    } else if b.header.height != len {
        Err(McError::InvalidBlock(BlockFault::HeightMismatch))
    } else if !crate::blockchain::names_parent(b.header, headers[len - 1]) {
        Err(McError::InvalidBlock(BlockFault::BadPreviousHash))
    } else {
        verify_outcome(b)
    }
}

/// How `r` answers a block: a block of a height already held is refused with
/// its hash; any other is answered by `validate_spec` when that refuses it.
pub open spec fn validate_outcome(headers: Seq<BlockHeader>, b: BlockView, r: Result<(), McError>) -> bool {
    if b.header.height < headers.len() {
        match r {
            Err(McError::BlockAlreadyExists(h)) => h@ == header_hash(b.header),
            _ => false,
        }
    } else {
        validate_spec(headers, b) is Err ==> r == validate_spec(headers, b)
    }
}

/// The block validator that applies the admission rules.
#[derive(Clone, Copy, Debug)]
pub struct DefaultBlockValidator {}

impl DefaultBlockValidator {
    pub fn validate<S: Storage>(&self, bc: &Blockchain<S>, block: &Block) -> (r: Result<(), McError>)
        requires
            bc.wf(),
        ensures
            validate_outcome(bc.headers(), block@, r),
            block@.header.height >= bc.headers().len() ==> r == validate_spec(bc.headers(), block@),
    {
        validate(bc, block)
    }
}

/// Checks a block against the chain, in order: not already held, the next
/// height, the parent's hash, then the block's own signature and content.
pub fn validate<S: Storage>(bc: &Blockchain<S>, block: &Block) -> (r: Result<(), McError>)
    requires
        bc.wf(),
    ensures
        validate_outcome(bc.headers(), block@, r),
        block@.header.height >= bc.headers().len() ==> r == validate_spec(bc.headers(), block@),
{
    proof {
        bc.lemma_shape();
    }
    if bc.has_block(block.header.height) {
        return Err(McError::BlockAlreadyExists(block.hash()));
    }
    let bc_height = bc.height();
    if block.header.height as u64 != bc_height as u64 + 1 {
        return Err(McError::InvalidBlock(BlockFault::HeightMismatch));
    }
    let prev_header = match bc.get_prev_header(block.header.height) {
        Some(h) => h,
        None => return Err(McError::InvalidBlock(BlockFault::HeightMismatch)),
    };
    let expected = Block::hash_header(&prev_header);
    match block.header.prev_block_header_hash {
        Some(h) => {
            if !h.same_as(&expected) {
                proof {
                    crate::hash::Hash::lemma_view_injective(h, expected);
                }
                return Err(McError::InvalidBlock(BlockFault::BadPreviousHash));
            }
            proof {
                crate::hash::Hash::lemma_view_injective(h, expected);
            }
        },
        None => return Err(McError::InvalidBlock(BlockFault::BadPreviousHash)),
    }
    block.verify()
}

} // verus!
