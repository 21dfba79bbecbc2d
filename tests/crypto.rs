use minichain::crypto::PrivateKey;

#[test]
fn test_keypair_sign_verify_valid() {
    let private_key = PrivateKey::generate();
    let public_key = private_key.public_key();

    let msg = b"hello world";
    let sig = private_key.sign(msg);

    assert!(sig.verify(msg, &public_key));
}

#[test]
fn test_keypair_sign_verify_fail() {
    let private_key = PrivateKey::generate();
    let _public_key = private_key.public_key();

    let msg = b"hello world";
    let sig = private_key.sign(msg);

    let other_private_key = PrivateKey::generate();
    let other_public_key = other_private_key.public_key();

    assert!(!sig.verify(msg, &other_public_key));
    assert!(!sig.verify(b"wrong message", &other_public_key));
}

#[test]
fn signing_is_deterministic_and_keys_are_sec1() {
    let key = PrivateKey::generate();
    let a = key.sign(b"m");
    let b = key.sign(b"m");
    assert_eq!(a, b);
    assert_eq!(a.bytes.len(), 64);
    let pk = key.public_key();
    assert_eq!(pk.bytes.len(), 65);
    assert!(!a.verify(b"n", &pk));
}
