//! A small proof-of-authority chain: signed blocks, a mempool, a byte codec,
//! a stack machine, and the decisions of a gossiping node.

pub mod hash;
pub mod crypto;
pub mod codec;
pub mod error;
pub mod transaction;
pub mod block;
pub mod state;
pub mod vm;
pub mod blockchain;
pub mod validator;
pub mod mempool;
pub mod message;
pub mod processor;
pub mod hasher;
pub mod encoding;
