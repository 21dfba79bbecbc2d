use minichain::block::create_genesis_block;
use minichain::crypto::PrivateKey;
use minichain::encoding::{Decodable, Encodable};
use minichain::hash::{Address, MyHash};
use minichain::hasher::{BlockHasher, Hasher, TxHasher};
use minichain::message::Message;
use minichain::transaction::Transaction;

#[test]
fn traits_round_trip() {
    let mut tx = Transaction::new(vec![5, 6]);
    tx.sign(&PrivateKey::generate());
    let bytes = tx.to_bytes();
    let back = <Transaction as Decodable>::from_bytes(&bytes).unwrap();
    assert_eq!(back.to_bytes(), bytes);

    let g = create_genesis_block();
    let back = <minichain::block::Block as Decodable>::from_bytes(&g.to_bytes()).unwrap();
    assert_eq!(back.hash(), g.hash());
    assert_eq!(g.header.to_bytes(), g.header.bytes());

    let m = Message::Text("x".to_string());
    let back = <Message as Decodable>::from_bytes(&m.to_bytes()).unwrap();
    assert_eq!(back.to_bytes(), m.to_bytes());
}

#[test]
fn hashers_agree_with_types() {
    let tx = Transaction::new(vec![1]);
    assert_eq!(TxHasher.hash(&tx), tx.hash());
    let g = create_genesis_block();
    assert_eq!(Hasher::<minichain::block::Block>::hash(&BlockHasher, &g), g.hash());
    assert_eq!(Hasher::<minichain::block::BlockHeader>::hash(&BlockHasher, &g.header), g.hash());
}

#[test]
fn digests_from_bytes() {
    let bytes: Vec<u8> = (0..32).collect();
    let h = minichain::hash::Hash::from_bytes(&bytes);
    assert_eq!(h.to_vec(), bytes);
    assert!(h.same_as(&minichain::hash::Hash::from_bytes(&bytes)));
    assert!(!h.same_as(&minichain::hash::Hash::zero()));
    assert_eq!(h.to_hex().into_iter().collect::<String>()[..6].to_string(), "000102");
    let m = MyHash::from_bytes(&bytes);
    assert_ne!(m, MyHash::zero());
    let a = Address::from_bytes(&bytes[12..]);
    assert_eq!(a.bytes.to_vec(), bytes[12..].to_vec());
    assert_eq!(minichain::hash::from_bytes::<4>(&[1, 2, 3, 4]), [1, 2, 3, 4]);
}

#[test]
fn address_is_tail_of_digest_of_key_text() {
    let key = PrivateKey::generate().public_key();
    let a = key.address().unwrap();
    let b = key.address().unwrap();
    assert_eq!(a, b);
    assert_eq!(a.bytes.len(), 20);
    assert_ne!(a.bytes.to_vec(), key.bytes[..20].to_vec());
    let other = PrivateKey::generate().public_key();
    assert_ne!(other.address().unwrap(), a);
    let bogus = minichain::crypto::PublicKey { bytes: vec![1, 2, 3] };
    assert!(bogus.address().is_none());
}

#[test]
fn decoding_garbage_fails() {
    assert!(<Transaction as Decodable>::from_bytes(&[1, 2, 3]).is_err());
    assert!(<Message as Decodable>::from_bytes(&[]).is_err());
}
