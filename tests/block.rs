use minichain::block::{create_genesis_block, data_hash, Block, BlockHeader};
use minichain::crypto::PrivateKey;
use minichain::error::{BlockFault, McError};
use minichain::transaction::Transaction;

fn random_block(height: u32, prev_block_header_hash: minichain::hash::Hash) -> Block {
    let private_key = PrivateKey::generate();
    let header = BlockHeader {
        version: 1,
        height,
        timestamp: 42,
        prev_block_header_hash: Some(prev_block_header_hash),
        data_hash: minichain::hash::Hash::zero(),
    };
    let mut b = Block::new(header, vec![]);
    b.header.data_hash = data_hash(&b.transactions);
    b.sign(&private_key);
    b
}

#[test]
fn test_hash_block() {
    let block = random_block(0, minichain::hash::Hash::zero());
    let hash = block.hash();
    println!("hash: {}", hash.to_hex().into_iter().collect::<String>());
}

#[test]
fn test_sign_block() {
    let private_key = PrivateKey::generate();
    let mut b = random_block(0, minichain::hash::Hash::zero());
    b.sign(&private_key);
    assert!(b.signature.is_some());
}

#[test]
fn test_verify_block() {
    let private_key = PrivateKey::generate();
    let mut b = random_block(0, minichain::hash::Hash::zero());
    b.sign(&private_key);
    b.verify().unwrap();

    // changing the data should make the public key invalid
    b.header.height = 100;
    assert!(b.verify().is_err());
    b.header.height = 0;

    // changing the public key should make the signature invalid
    let other_private_key = PrivateKey::generate();
    b.validator_public_key = Some(other_private_key.public_key());
    assert!(b.verify().is_err());
}

#[test]
fn block_hash_is_sha256_of_encoded_header() {
    let b = random_block(3, minichain::hash::Hash::zero());
    let mut bytes = b.header.bytes();
    assert_eq!(bytes.len(), 4 + 4 + 16 + 32 + 1 + 32);
    assert_eq!(b.hash(), Block::hash_header(&b.header));
    assert_eq!(b.hash(), b.header.hash());
    bytes[0] ^= 1;
    let mut other = b.header;
    other.version ^= 1;
    assert_eq!(other.bytes(), bytes);
    assert_ne!(other.hash(), b.hash());
}

#[test]
fn genesis_block_is_fixed() {
    let g = create_genesis_block();
    assert_eq!(g.header.version, 1);
    assert_eq!(g.header.height, 0);
    assert_eq!(g.header.timestamp, 0);
    assert_eq!(g.header.data_hash, minichain::hash::Hash::zero());
    assert!(g.header.prev_block_header_hash.is_none());
    assert!(g.transactions.is_empty());
    assert!(g.signature.is_none());
    assert_eq!(create_genesis_block().encode(), g.encode());
}

#[test]
fn empty_data_hash_is_sha256_of_nothing() {
    let h = data_hash(&[]);
    assert_eq!(
        h.to_hex().into_iter().collect::<String>(),
        "e3b0c44298fc1c149afbf4c8996fb92427ae41e4649b934ca495991b7852b855"
    );
}

#[test]
fn verify_reports_each_fault() {
    let genesis = create_genesis_block();
    assert_eq!(genesis.verify(), Err(McError::InvalidBlock(BlockFault::MissingSignature)));

    let key = PrivateKey::generate();
    let mut b = random_block(1, genesis.hash());
    b.validator_public_key = None;
    assert_eq!(b.verify(), Err(McError::InvalidBlock(BlockFault::MissingValidator)));

    let mut b = random_block(1, genesis.hash());
    b.transactions.push(Transaction::new(vec![1, 2, 3]));
    b.sign(&key);
    assert_eq!(b.verify(), Err(McError::InvalidBlock(BlockFault::BadTransaction)));

    let mut tx = Transaction::new(vec![1, 2, 3]);
    tx.sign(&key);
    let mut b = random_block(1, genesis.hash());
    b.transactions.push(tx);
    b.sign(&key);
    assert_eq!(b.verify(), Err(McError::InvalidBlock(BlockFault::BadDataHash)));
    b.header.data_hash = data_hash(&b.transactions);
    b.sign(&key);
    assert_eq!(b.verify(), Ok(()));
}

#[test]
fn block_round_trips_through_its_encoding() {
    let key = PrivateKey::generate();
    let mut tx = Transaction::new(vec![9, 8, 7]);
    tx.sign(&key);
    tx.set_first_seen(77);
    let genesis = create_genesis_block();
    let mut b = Block::from_prev_header(&genesis.header, vec![tx], 1234);
    b.sign(&key);
    let bytes = b.encode();
    let d = Block::decode(&bytes).unwrap();
    assert_eq!(d.encode(), bytes);
    assert_eq!(d.header.height, 1);
    assert_eq!(d.header.timestamp, 1234);
    assert_eq!(d.header.prev_block_header_hash, Some(genesis.hash()));
    assert_eq!(d.transactions.len(), 1);
    assert_eq!(d.transactions[0].data, vec![9, 8, 7]);
    assert_eq!(d.transactions[0].first_seen(), 77);
    assert_eq!(d.validator_public_key, b.validator_public_key);
    assert_eq!(d.signature, b.signature);
    d.verify().unwrap();

    let genesis_bytes = genesis.encode();
    let g = Block::decode(&genesis_bytes).unwrap();
    assert_eq!(g.encode(), genesis_bytes);
}

#[test]
fn decode_refuses_what_is_not_an_encoding() {
    let b = create_genesis_block().encode();
    assert_eq!(Block::decode(&b[..b.len() - 1]).err(), Some(McError::Undecodable));
    let mut longer = b.clone();
    longer.push(0);
    assert_eq!(Block::decode(&longer).err(), Some(McError::Undecodable));
    assert_eq!(Block::decode(&[]).err(), Some(McError::Undecodable));
}

#[test]
fn from_prev_header_links_to_parent() {
    let genesis = create_genesis_block();
    let b = Block::from_prev_header(&genesis.header, vec![], 5);
    assert_eq!(b.header.version, genesis.header.version);
    assert_eq!(b.header.height, 1);
    assert_eq!(b.header.prev_block_header_hash, Some(genesis.header.hash()));
    assert_eq!(b.header.data_hash, data_hash(&[]));
    assert!(b.signature.is_none());
}
