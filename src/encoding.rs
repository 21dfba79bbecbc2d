use vstd::prelude::*;
use crate::block::{block_ok, enc_block, enc_header, Block, BlockHeader};
use crate::error::McError;
use crate::message::{enc_message, message_ok, Message};
use crate::transaction::{enc_tx, tx_ok, Transaction};

verus! {

/// A value with a byte encoding.
pub trait Encodable {
    /// The bytes that encode this value.
    spec fn encoding(&self) -> Seq<u8>;

    /// Every length in the value fits its prefix in the encoding.
    spec fn encodable(&self) -> bool;

    fn to_bytes(&self) -> (r: Vec<u8>)
        ensures
            r@ == self.encoding(),
            self.encodable(),
    ;
}

/// A value that can be read back from its encoding.
pub trait Decodable: Encodable + Sized {
    /// Reads a value from exactly the bytes of its encoding.
    fn from_bytes(data: &[u8]) -> (r: Result<Self, McError>)
        ensures
            r matches Ok(x) ==> x.encoding() == data@ && x.encodable(),
            r matches Err(e) ==> e == McError::Undecodable,
            (exists|x: Self| #[trigger] x.encodable() && x.encoding() == data@) ==> r is Ok,
    ;
}

impl Encodable for BlockHeader {
    open spec fn encodable(&self) -> bool {
        true
    }

    open spec fn encoding(&self) -> Seq<u8> {
        enc_header(*self)
    }

    fn to_bytes(&self) -> (r: Vec<u8>) {
        self.bytes()
    }
}

impl Encodable for Transaction {
    open spec fn encodable(&self) -> bool {
        tx_ok(self@)
    }

    open spec fn encoding(&self) -> Seq<u8> {
        enc_tx(self@)
    }

    fn to_bytes(&self) -> (r: Vec<u8>) {
        self.encode()
    }
}

impl Decodable for Transaction {
    fn from_bytes(data: &[u8]) -> (r: Result<Transaction, McError>) {
        let r = Transaction::decode(data);
        proof {
            if exists|x: Transaction| #[trigger] x.encodable() && x.encoding() == data@ {
                let x = choose|x: Transaction| #[trigger] x.encodable() && x.encoding() == data@;
                assert(x@ == x@);
            }
        }
        r
    }
}

impl Encodable for Block {
    open spec fn encodable(&self) -> bool {
        block_ok(self@)
    }

    open spec fn encoding(&self) -> Seq<u8> {
        enc_block(self@)
    }

    fn to_bytes(&self) -> (r: Vec<u8>) {
        self.encode()
    }
}

impl Decodable for Block {
    fn from_bytes(data: &[u8]) -> (r: Result<Block, McError>) {
        let r = Block::decode(data);
        proof {
            if exists|x: Block| #[trigger] x.encodable() && x.encoding() == data@ {
                let x = choose|x: Block| #[trigger] x.encodable() && x.encoding() == data@;
                assert(x@ == x@);
            }
        }
        r
    }
}

impl Encodable for Message {
    open spec fn encodable(&self) -> bool {
        message_ok(self@)
    }

    open spec fn encoding(&self) -> Seq<u8> {
        enc_message(self@)
    }

    fn to_bytes(&self) -> (r: Vec<u8>) {
        self.bytes()
    }
}

impl Decodable for Message {
    fn from_bytes(data: &[u8]) -> (r: Result<Message, McError>) {
        let r = Message::decode(data);
        proof {
            if exists|x: Message| #[trigger] x.encodable() && x.encoding() == data@ {
                let x = choose|x: Message| #[trigger] x.encodable() && x.encoding() == data@;
                assert(x@ == x@);
            }
        }
        r
    }
}

} // verus!
