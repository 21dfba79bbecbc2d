use vstd::prelude::*;
use vstd::utf8::encode_utf8;
use crate::hash::{sha256, sha256_of, Address};

verus! {

/// Whether `sig` is a valid P-256 ECDSA signature (SHA-256 digest) over `msg`
/// under the SEC1-encoded public key `key`.
pub uninterp spec fn ecdsa_accepts(key: Seq<u8>, msg: Seq<u8>, sig: Seq<u8>) -> bool;

/// A P-256 public key in SEC1 encoding.
#[derive(Clone, Debug, PartialEq, Eq)]
pub struct PublicKey {
    pub bytes: Vec<u8>,
}

impl View for PublicKey {
    type V = Seq<u8>;

    open spec fn view(&self) -> Seq<u8> {
        self.bytes@
    }
}

/// A detached ECDSA signature: the scalars `r` and `s`, big endian, 32 bytes each.
#[derive(Clone, Debug, PartialEq, Eq)]
pub struct Signature {
    pub bytes: Vec<u8>,
}

impl View for Signature {
    type V = Seq<u8>;

    open spec fn view(&self) -> Seq<u8> {
        self.bytes@
    }
}

/// Whether p256 accepts `b` as the big-endian bytes of a secret scalar.
pub uninterp spec fn valid_scalar(b: Seq<u8>) -> bool;

/// The SEC1-encoded public key of a secret scalar.
pub uninterp spec fn public_key_of(secret: Seq<u8>) -> Seq<u8>;

/// The deterministic (RFC 6979) ECDSA signature of `msg` under a secret scalar.
pub uninterp spec fn ecdsa_signature(secret: Seq<u8>, msg: Seq<u8>) -> Seq<u8>;

/// A P-256 signing key, held as its secret scalar.
pub struct PrivateKey {
    secret: Vec<u8>,
}

/// Relies on p256's `SecretKey::random` with rand's thread-local generator, and
/// `SecretKey::to_bytes`: a fresh secret scalar that p256 accepts.
#[verifier::external_body]
fn random_scalar() -> (r: Vec<u8>)
    ensures
        valid_scalar(r@),
{
    p256::SecretKey::random(&mut rand::thread_rng()).to_bytes().to_vec()
}

/// Relies on p256's `SecretKey::from_slice`, `SecretKey::public_key` and
/// `PublicKey::to_sec1_bytes`: the uncompressed point of a valid key, which
/// `PublicKey::from_sec1_bytes` reads back and which pkcs8 writes as PEM.
#[verifier::external_body]
fn sec1_public_key(secret: &[u8]) -> (r: Vec<u8>)
    requires
        valid_scalar(secret@),
    ensures
        r@ == public_key_of(secret@),
        pem_writes(r@),
{
    match p256::SecretKey::from_slice(secret) {
        Ok(k) => k.public_key().to_sec1_bytes().into_vec(),
        Err(_) => Vec::new(),
    }
}

/// Relies on p256's `SigningKey::from_slice` and `Signer::sign`, which signs
/// with an RFC 6979 nonce: 64 bytes, `r` then `s`, which `Verifier::verify`
/// accepts under the key's own public key.
#[verifier::external_body]
fn ecdsa_sign(secret: &[u8], msg: &[u8]) -> (r: Vec<u8>)
    requires
        valid_scalar(secret@),
    ensures
        r@ == ecdsa_signature(secret@, msg@),
        r@.len() == 64,
        ecdsa_accepts(public_key_of(secret@), msg@, r@),
{
    match p256::ecdsa::SigningKey::from_slice(secret) {
        Ok(sk) => {
            let sig: p256::ecdsa::Signature = p256::ecdsa::signature::Signer::sign(&sk, msg);
            sig.to_bytes().to_vec()
        },
        Err(_) => Vec::new(),
    }
}

/// Relies on p256's `VerifyingKey::from_sec1_bytes`, `Signature::from_slice` and
/// `Verifier::verify`: true exactly when the key and signature parse and the
/// signature is valid over `msg`.
#[verifier::external_body]
fn ecdsa_verify(key: &[u8], msg: &[u8], sig: &[u8]) -> (r: bool)
    ensures
        r == ecdsa_accepts(key@, msg@, sig@),
{
    let vk = match p256::ecdsa::VerifyingKey::from_sec1_bytes(key) {
        Ok(vk) => vk,
        Err(_) => return false,
    };
    let sig = match p256::ecdsa::Signature::from_slice(sig) {
        Ok(s) => s,
        Err(_) => return false,
    };
    p256::ecdsa::signature::Verifier::verify(&vk, msg, &sig).is_ok()
}

impl PrivateKey {
    #[verifier::type_invariant]
    spec fn inv(&self) -> bool {
        valid_scalar(self.secret@)
    }

    /// The secret scalar, which p256 accepts.
    pub closed spec fn secret(&self) -> Seq<u8> {
        self.secret@
    }

    /// A fresh random key.
    pub fn generate() -> (r: PrivateKey)
        ensures
            valid_scalar(r.secret()),
    {
        PrivateKey { secret: random_scalar() }
    }

    /// The matching public key, which has an address.
    pub fn public_key(&self) -> (r: PublicKey)
        ensures
            r@ == public_key_of(self.secret()),
            pem_writes(r@),
    {
        proof {
            use_type_invariant(self);
        }
        PublicKey { bytes: sec1_public_key(self.secret.as_slice()) }
    }

    /// Signs `data`; the signature verifies under this key's public key.
    pub fn sign(&self, data: &[u8]) -> (r: Signature)
        ensures
            r@ == ecdsa_signature(self.secret(), data@),
            ecdsa_accepts(public_key_of(self.secret()), data@, r@),
    {
        proof {
            use_type_invariant(self);
        }
        Signature { bytes: ecdsa_sign(self.secret.as_slice(), data) }
    }
}

/// The PEM text of a SEC1-encoded public key, lines ended by LF.
pub uninterp spec fn pem_of(key: Seq<u8>) -> Seq<char>;

/// Whether p256 reads `key` as a SEC1-encoded point and writes it as PEM.
pub uninterp spec fn pem_writes(key: Seq<u8>) -> bool;

/// Relies on p256's `PublicKey::from_sec1_bytes` and pkcs8's
/// `EncodePublicKey::to_public_key_pem` with LF line endings; none when either
/// fails.
#[verifier::external_body]
fn public_key_pem(key: &[u8]) -> (r: Option<String>)
    ensures
        r is Some <==> pem_writes(key@),
        r matches Some(s) ==> s@ == pem_of(key@),
{
    match p256::PublicKey::from_sec1_bytes(key) {
        Ok(k) => match p256::pkcs8::EncodePublicKey::to_public_key_pem(&k, p256::pkcs8::LineEnding::LF) {
            Ok(text) => Some(text),
            Err(_) => None,
        },
        Err(_) => None,
    }
}

/// An address: the low 20 bytes of SHA-256 over the PEM text of a key.
pub open spec fn address_of(key: Seq<u8>) -> Seq<u8> {
    let d = sha256_of(encode_utf8(pem_of(key)));
    d.subrange(d.len() - 20, d.len() as int)
}

impl PublicKey {
    /// The key's address; none when the bytes are not a key.
    pub fn address(&self) -> (r: Option<Address>)
        ensures
            r is Some <==> pem_writes(self@),
            r matches Some(a) ==> a@ == address_of(self@),
    {
        let text = match public_key_pem(self.bytes.as_slice()) {
            Some(t) => t,
            None => return None,
        };
        let d = sha256(text.as_str().as_bytes());
        let v = d.to_vec();
        let tail = vstd::slice::slice_subrange(v.as_slice(), 12, 32);
        Some(Address::from_bytes(tail))
    }
}

impl Signature {
    /// Whether this signature is valid over `data` under `public_key`.
    pub fn verify(&self, data: &[u8], public_key: &PublicKey) -> (r: bool)
        ensures
            r == ecdsa_accepts(public_key@, data@, self@),
    {
        ecdsa_verify(public_key.bytes.as_slice(), data, self.bytes.as_slice())
    }
}

} // verus!
