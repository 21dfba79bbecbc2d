use vstd::prelude::*;
use crate::block::{header_hash, Block, BlockHeader};
use crate::transaction::{tx_hash, Transaction};

verus! {

/// Computes the digest that identifies a value.
pub trait Hasher<T> {
    /// The digest of `t`.
    spec fn digest(&self, t: &T) -> Seq<u8>;

    fn hash(&self, t: &T) -> (r: crate::hash::Hash)
        ensures
            r@ == self.digest(t),
    ;
}

/// Hashes a transaction: SHA-256 of its data.
#[derive(Clone, Copy, Debug)]
pub struct TxHasher;

impl Hasher<Transaction> for TxHasher {
    open spec fn digest(&self, t: &Transaction) -> Seq<u8> {
        tx_hash(t@)
    }

    fn hash(&self, t: &Transaction) -> (r: crate::hash::Hash) {
        t.hash()
    }
}

/// Hashes a block or a header: SHA-256 of the encoded header.
#[derive(Clone, Copy, Debug)]
pub struct BlockHasher;

impl Hasher<Block> for BlockHasher {
    open spec fn digest(&self, b: &Block) -> Seq<u8> {
        header_hash(b.header)
    }

    fn hash(&self, b: &Block) -> (r: crate::hash::Hash) {
        b.hash()
    }
}

impl Hasher<BlockHeader> for BlockHasher {
    open spec fn digest(&self, h: &BlockHeader) -> Seq<u8> {
        header_hash(*h)
    }

    fn hash(&self, h: &BlockHeader) -> (r: crate::hash::Hash) {
        h.hash()
    }
}

} // verus!
