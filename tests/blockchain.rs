use minichain::block::{create_genesis_block, data_hash, Block, BlockHeader};
use minichain::blockchain::{Blockchain, MemStorage, Storage};
use minichain::crypto::PrivateKey;
use minichain::error::{BlockFault, McError};
use minichain::transaction::Transaction;
use minichain::validator::{validate, DefaultBlockValidator};

fn random_block(height: u32, prev_block_header_hash: minichain::hash::Hash) -> Block {
    let private_key = PrivateKey::generate();
    let header = BlockHeader {
        version: 1,
        height,
        timestamp: 42,
        prev_block_header_hash: Some(prev_block_header_hash),
        data_hash: minichain::hash::Hash::zero(),
    };
    let mut b = Block::new(header, vec![]);
    b.header.data_hash = data_hash(&b.transactions);
    b.sign(&private_key);
    b
}

#[test]
fn test_blockchain() {
    let genesis_block = create_genesis_block();
    let mut blockchain = Blockchain::new(genesis_block.duplicate());

    assert_eq!(blockchain.len(), 1);
    assert_eq!(blockchain.height(), 0);
    assert_eq!(blockchain.get_block(0).unwrap().hash(), genesis_block.hash());

    let block = random_block(1, genesis_block.hash());

    blockchain.add_block(block).unwrap();

    assert_eq!(blockchain.len(), 2);
    assert_eq!(blockchain.height(), 1);
}

#[test]
fn genesis_only_chain() {
    let genesis = create_genesis_block();
    let chain = Blockchain::new(create_genesis_block());
    assert_eq!(chain.len(), 1);
    assert_eq!(chain.height(), 0);
    assert_eq!(chain.get_block(0).unwrap().header.hash(), genesis.header.hash());
    assert!(chain.has_block(0));
    assert!(!chain.has_block(1));
    assert_eq!(chain.get_block(1).err(), Some(McError::StorageMiss(1)));
    assert_eq!(chain.get_prev_header(0).unwrap().height, 0);
    assert!(chain.get_header(1).is_none());
}

#[test]
fn append_one_valid_block() {
    let genesis = create_genesis_block();
    let mut chain = Blockchain::new(create_genesis_block());
    let key = PrivateKey::generate();
    let mut b = Block::from_prev_header(&genesis.header, vec![], 10);
    b.sign(&key);
    let expected = b.header.hash();
    chain.add_block(b).unwrap();
    assert_eq!(chain.height(), 1);
    assert_eq!(chain.len(), 2);
    assert_eq!(chain.get_prev_header(1).unwrap().height, 0);
    let stored = chain.get_block(1).unwrap();
    assert_eq!(stored.header.hash(), expected);
    assert_eq!(chain.get_header(1).unwrap().prev_block_header_hash, Some(chain.get_header(0).unwrap().hash()));
}

#[test]
fn reject_wrong_parent_hash() {
    let mut chain = Blockchain::new(create_genesis_block());
    let b = random_block(1, minichain::hash::Hash::zero());
    assert_eq!(chain.add_block(b), Err(McError::InvalidBlock(BlockFault::BadPreviousHash)));
    assert_eq!(chain.len(), 1);
}

#[test]
fn reject_forged_signature() {
    let genesis = create_genesis_block();
    let mut chain = Blockchain::new(create_genesis_block());
    let mut b = random_block(1, genesis.hash());
    b.validator_public_key = Some(PrivateKey::generate().public_key());
    assert_eq!(b.verify(), Err(McError::InvalidBlock(BlockFault::BadSignature)));
    assert_eq!(chain.add_block(b), Err(McError::InvalidBlock(BlockFault::BadSignature)));
}

#[test]
fn reject_duplicates_and_gaps() {
    let genesis = create_genesis_block();
    let mut chain = Blockchain::new(create_genesis_block());
    let b0 = random_block(0, genesis.hash());
    let h0 = b0.hash();
    assert_eq!(chain.add_block(b0), Err(McError::BlockAlreadyExists(h0)));
    let b2 = random_block(2, genesis.hash());
    assert_eq!(chain.add_block(b2), Err(McError::InvalidBlock(BlockFault::HeightMismatch)));
    let b1 = random_block(1, genesis.hash());
    assert_eq!(validate(&chain, &b1), Ok(()));
    assert_eq!(DefaultBlockValidator {}.validate(&chain, &b1), Ok(()));
    chain.add_block(b1.duplicate()).unwrap();
    let h1 = b1.hash();
    assert_eq!(chain.add_block(b1), Err(McError::BlockAlreadyExists(h1)));
}

#[test]
fn block_transactions_run_on_the_state() {
    let genesis = create_genesis_block();
    let mut chain = Blockchain::new(create_genesis_block());
    let key = PrivateKey::generate();
    let mut tx = Transaction::new(vec![0x02, 0xaa, 0x04, 0xaa, 0xbc]);
    tx.sign(&key);
    let mut b = Block::from_prev_header(&genesis.header, vec![tx], 1);
    b.sign(&key);
    chain.add_block(b).unwrap();
    assert_eq!(chain.height(), 1);

    let mut bad = Transaction::new(vec![0x09, 0xaa, 0xaf]);
    bad.sign(&key);
    let tip = chain.get_header(1).unwrap();
    let mut b2 = Block::from_prev_header(&tip, vec![bad], 2);
    b2.sign(&key);
    assert_eq!(chain.add_block(b2), Err(McError::MissingKey));
    assert_eq!(chain.height(), 1);
}

#[test]
fn get_blocks_ranges() {
    let genesis = create_genesis_block();
    let mut chain = Blockchain::new(create_genesis_block());
    let key = PrivateKey::generate();
    let mut prev = genesis.header;
    for t in 0..3u128 {
        let mut b = Block::from_prev_header(&prev, vec![], t + 1);
        b.sign(&key);
        prev = b.header;
        chain.add_block(b).unwrap();
    }
    assert_eq!(chain.height(), 3);
    let all = chain.get_blocks(0, 4).unwrap();
    assert_eq!(all.len(), 4);
    for (i, b) in all.iter().enumerate() {
        assert_eq!(b.header.height as usize, i);
    }
    assert_eq!(chain.get_blocks(1, 3).unwrap().len(), 2);
    assert_eq!(chain.get_blocks(2, 2).unwrap().len(), 0);
    assert_eq!(chain.get_blocks(0, 5).err(), Some(McError::RangeOutOfBounds));
}

#[test]
fn storage_keeps_latest_value() {
    let mut s = MemStorage::new();
    assert!(s.get(0).is_none());
    s.put(0, vec![1]);
    s.put(0, vec![2]);
    assert_eq!(s.get(0), Some(vec![2]));
}

#[test]
fn chain_over_given_storage() {
    let chain = Blockchain::with_storage(create_genesis_block(), MemStorage::new());
    assert_eq!(chain.height(), 0);
    assert_eq!(chain.get_block(0).unwrap().hash(), create_genesis_block().hash());
}
