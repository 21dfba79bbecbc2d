use minichain::crypto::PrivateKey;
use minichain::error::McError;
use minichain::transaction::{parse_tx, Transaction};

#[test]
fn test_transaction() {
    let mut t = Transaction::new(vec![1, 2, 3]);
    let private_key = PrivateKey::generate();
    t.sign(&private_key);
    t.verify().unwrap();
}

#[test]
fn unsigned_or_tampered_transaction_is_invalid() {
    let t = Transaction::new(vec![1, 2, 3]);
    assert_eq!(t.verify(), Err(McError::InvalidTransaction));
    let key = PrivateKey::generate();
    let mut t = Transaction::new(vec![1, 2, 3]);
    t.sign(&key);
    t.data.push(4);
    assert_eq!(t.verify(), Err(McError::InvalidTransaction));
}

#[test]
fn transaction_hash_is_sha256_of_data() {
    let t = Transaction::new(b"abc".to_vec());
    assert_eq!(
        t.hash().to_hex().into_iter().collect::<String>(),
        "ba7816bf8f01cfea414140de5dae2223b00361a396177a9cb410ff61f20015ad"
    );
    let mut signed = Transaction::new(b"abc".to_vec());
    signed.sign(&PrivateKey::generate());
    assert_eq!(signed.hash(), t.hash());
}

#[test]
fn transaction_encoding_layout() {
    let mut t = Transaction::new(vec![7, 8]);
    t.set_first_seen(1);
    let e = t.encode();
    let mut expected = vec![2, 0, 0, 0, 0, 0, 0, 0, 7, 8, 0, 0];
    let mut seen = vec![0u8; 16];
    seen[0] = 1;
    expected.extend_from_slice(&seen);
    assert_eq!(e, expected);
    let (back, end) = parse_tx(&e, 0).unwrap();
    assert_eq!(end, e.len());
    assert_eq!(back.data, vec![7, 8]);
    assert_eq!(back.first_seen(), 1);
    assert!(parse_tx(&e[..e.len() - 1], 0).is_none());
}
