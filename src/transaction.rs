use vstd::prelude::*;
use crate::codec::{at, bytes_ok, copy_bytes, enc_bytes, enc_opt_bytes, enc_u128, lemma_at_concat, lemma_bytes_unique, lemma_opt_bytes_unique, lemma_u128_unique, opt_bytes_ok, opt_seq, parse_bytes, parse_opt_bytes, parse_u128, write_bytes, write_opt_bytes, write_u128};
use crate::crypto::{ecdsa_accepts, ecdsa_signature, public_key_of, PrivateKey, PublicKey, Signature};
use crate::hash::sha256_of;
use crate::error::McError;

verus! {

/// A transaction: an opaque program for the stack machine, signed by its sender.
#[derive(Clone, Debug)]
pub struct Transaction {
    pub data: Vec<u8>,
    pub public_key_of_sender: Option<PublicKey>,
    pub signature: Option<Signature>,
    /// When this node first admitted the transaction, in nanoseconds; zero until then.
    pub first_seen: u128,
}

/// What a transaction holds, as mathematical values.
pub struct TxView {
    pub data: Seq<u8>,
    pub sender: Option<Seq<u8>>,
    pub signature: Option<Seq<u8>>,
    pub first_seen: u128,
}

pub open spec fn opt_key(o: Option<PublicKey>) -> Option<Seq<u8>> {
    match o {
        None => None,
        Some(k) => Some(k@),
    }
}

pub open spec fn opt_sig(o: Option<Signature>) -> Option<Seq<u8>> {
    match o {
        None => None,
        Some(s) => Some(s@),
    }
}

impl View for Transaction {
    type V = TxView;

    open spec fn view(&self) -> TxView {
        TxView {
            data: self.data@,
            sender: opt_key(self.public_key_of_sender),
            signature: opt_sig(self.signature),
            first_seen: self.first_seen,
        }
    }
}

/// A transaction is valid when it carries a sender key and a signature, and
/// the signature is valid over its data under that key.
pub open spec fn tx_valid(t: TxView) -> bool {
    match (t.sender, t.signature) {
        (Some(k), Some(s)) => ecdsa_accepts(k, t.data, s),
        _ => false,
    }
}

/// A transaction's hash: SHA-256 of its data.
pub open spec fn tx_hash(t: TxView) -> Seq<u8> {
    sha256_of(t.data)
}

/// The encoding of a transaction: data, sender key, signature, first-seen time.
pub open spec fn enc_tx(t: TxView) -> Seq<u8> {
    enc_bytes(t.data) + enc_opt_bytes(t.sender) + enc_opt_bytes(t.signature) + enc_u128(t.first_seen)
}

/// Every length in a transaction fits its prefix.
pub open spec fn tx_ok(t: TxView) -> bool {
    bytes_ok(t.data) && opt_bytes_ok(t.sender) && opt_bytes_ok(t.signature)
}

pub fn copy_key(o: &Option<PublicKey>) -> (r: Option<PublicKey>)
    ensures
        opt_key(r) == opt_key(*o),
{
    match o {
        None => None,
        Some(k) => Some(PublicKey { bytes: copy_bytes(&k.bytes) }),
    }
}

pub fn copy_sig(o: &Option<Signature>) -> (r: Option<Signature>)
    ensures
        opt_sig(r) == opt_sig(*o),
{
    match o {
        None => None,
        Some(s) => Some(Signature { bytes: copy_bytes(&s.bytes) }),
    }
}

impl Transaction {
    pub fn new(data: Vec<u8>) -> (r: Transaction)
        ensures
            r@ == (TxView { data: data@, sender: None, signature: None, first_seen: 0 }),
    {
        Transaction { data, public_key_of_sender: None, signature: None, first_seen: 0 }
    }

    /// A copy with the same view.
    pub fn duplicate(&self) -> (r: Transaction)
        ensures
            r@ == self@,
    {
        Transaction {
            data: copy_bytes(&self.data),
            public_key_of_sender: copy_key(&self.public_key_of_sender),
            signature: copy_sig(&self.signature),
            first_seen: self.first_seen,
        }
    }

    /// Signs the data and records the signer's public key.
    pub fn sign(&mut self, private_key: &PrivateKey)
        ensures
            final(self)@ == (TxView {
                sender: Some(public_key_of(private_key.secret())),
                signature: Some(ecdsa_signature(private_key.secret(), old(self).data@)),
                ..old(self)@
            }),
            tx_valid(final(self)@),
    {
        let sig = private_key.sign(self.data.as_slice());
        self.public_key_of_sender = Some(private_key.public_key());
        self.signature = Some(sig);
    }

    /// Succeeds exactly when the transaction is valid.
    pub fn verify(&self) -> (r: Result<(), McError>)
        ensures
            r is Ok <==> tx_valid(self@),
            r matches Err(e) ==> e == McError::InvalidTransaction,
    {
        match (&self.public_key_of_sender, &self.signature) {
            (Some(k), Some(s)) => {
                if s.verify(self.data.as_slice(), k) {
                    Ok(())
                } else {
                    Err(McError::InvalidTransaction)
                }
            },
            _ => Err(McError::InvalidTransaction),
        }
    }

    pub fn first_seen(&self) -> (r: u128)
        ensures
            r == self.first_seen,
    {
        self.first_seen
    }

    pub fn set_first_seen(&mut self, first_seen: u128)
        ensures
            final(self)@ == (TxView { first_seen, ..old(self)@ }),
    {
        self.first_seen = first_seen;
    }

    /// SHA-256 of the data.
    pub fn hash(&self) -> (r: crate::hash::Hash)
        ensures
            r@ == tx_hash(self@),
    {
        crate::hash::sha256(self.data.as_slice())
    }

    /// Appends the encoding of this transaction to `out`.
    pub fn write(&self, out: &mut Vec<u8>)
        ensures
            final(out)@ == old(out)@ + enc_tx(self@),
            tx_ok(self@),
    {
        write_bytes(out, self.data.as_slice());
        match &self.public_key_of_sender {
            None => write_opt_bytes(out, None),
            Some(k) => write_opt_bytes(out, Some(k.bytes.as_slice())),
        }
        match &self.signature {
            None => write_opt_bytes(out, None),
            Some(s) => write_opt_bytes(out, Some(s.bytes.as_slice())),
        }
        write_u128(out, self.first_seen);
        assert(out@ =~= old(out)@ + enc_tx(self@));
    }

    pub fn encode(&self) -> (r: Vec<u8>)
        ensures
            r@ == enc_tx(self@),
            tx_ok(self@),
    {
        let mut out: Vec<u8> = Vec::new();
        self.write(&mut out);
        assert(out@ =~= enc_tx(self@));
        out
    }
}

impl Transaction {
    /// Reads a transaction from exactly the bytes of its encoding. Decoding
    /// what `encode` gives returns the same transaction.
    pub fn decode(data: &[u8]) -> (r: Result<Transaction, McError>)
        ensures
            r matches Ok(t) ==> enc_tx(t@) == data@ && tx_ok(t@),
            r matches Err(e) ==> e == McError::Undecodable,
            forall|m: TxView| tx_ok(m) && #[trigger] enc_tx(m) == data@ ==> (r matches Ok(t) && t@ == m),
    {
        match parse_tx(data, 0) {
            Some((t, end)) => {
                if end == data.len() {
                    proof {
                        assert(data@.subrange(0, end as int) =~= data@);
                    }
                    Ok(t)
                } else {
                    proof {
                        assert forall|m: TxView| tx_ok(m) && #[trigger] enc_tx(m) == data@ implies false by {
                            assert(data@.subrange(0, data@.len() as int) =~= data@);
                        }
                    }
                    Err(McError::Undecodable)
                }
            },
            None => {
                proof {
                    assert forall|m: TxView| tx_ok(m) && #[trigger] enc_tx(m) == data@ implies false by {
                        assert(data@.subrange(0, data@.len() as int) =~= data@);
                    }
                }
                Err(McError::Undecodable)
            },
        }
    }
}

/// Reads a transaction at `pos`.
pub fn parse_tx(b: &[u8], pos: usize) -> (r: Option<(Transaction, usize)>)
    requires
        pos <= b@.len(),
    ensures
        r matches Some((t, end)) ==> pos <= end <= b@.len() && at(b@, pos as int, enc_tx(t@)) && end
            == pos + enc_tx(t@).len() && tx_ok(t@),
        forall|m: TxView|
            tx_ok(m) && at(b@, pos as int, #[trigger] enc_tx(m)) ==> (r matches Some((t, end)) && t@
                == m),
{
    let ghost bs = b@;
    let ghost p = pos as int;
    let (data, p1) = match parse_bytes(b, pos) {
        Some(x) => x,
        None => {
            proof {
                assert forall|m: TxView| tx_ok(m) && at(bs, p, #[trigger] enc_tx(m)) implies false by {
                    lemma_tx_parts(bs, p, m);
                }
            }
            return None;
        },
    };
    let (sender, p2) = match parse_opt_bytes(b, p1) {
        Some(x) => x,
        None => {
            proof {
                assert forall|m: TxView| tx_ok(m) && at(bs, p, #[trigger] enc_tx(m)) implies false by {
                    lemma_tx_parts(bs, p, m);
                }
            }
            return None;
        },
    };
    let (signature, p3) = match parse_opt_bytes(b, p2) {
        Some(x) => x,
        None => {
            proof {
                assert forall|m: TxView| tx_ok(m) && at(bs, p, #[trigger] enc_tx(m)) implies false by {
                    lemma_tx_parts(bs, p, m);
                }
            }
            return None;
        },
    };
    let (first_seen, p4) = match parse_u128(b, p3) {
        Some(x) => x,
        None => {
            proof {
                assert forall|m: TxView| tx_ok(m) && at(bs, p, #[trigger] enc_tx(m)) implies false by {
                    lemma_tx_parts(bs, p, m);
                }
            }
            return None;
        },
    };
    let ghost gs = opt_seq(sender);
    let ghost gg = opt_seq(signature);
    let t = Transaction {
        data,
        public_key_of_sender: match sender {
            None => None,
            Some(v) => Some(PublicKey { bytes: v }),
        },
        signature: match signature {
            None => None,
            Some(v) => Some(Signature { bytes: v }),
        },
        first_seen,
    };
    assert(t@.sender == gs);
    assert(t@.signature == gg);
    proof {
        vstd::bytes::lemma_auto_spec_u128_to_from_le_bytes();
        lemma_tx_parts(bs, p, t@);
        assert forall|m: TxView| tx_ok(m) && at(bs, p, #[trigger] enc_tx(m)) implies t@ == m by {
            lemma_tx_parts(bs, p, m);
        }
    }
    Some((t, p4))
}

/// The pieces of an encoded transaction occur one after the other.
proof fn lemma_tx_parts(b: Seq<u8>, pos: int, m: TxView)
    ensures
        at(b, pos, enc_tx(m)) <==> ({
            let p1 = pos + enc_bytes(m.data).len();
            let p2 = p1 + enc_opt_bytes(m.sender).len();
            let p3 = p2 + enc_opt_bytes(m.signature).len();
            &&& at(b, pos, enc_bytes(m.data))
            &&& at(b, p1, enc_opt_bytes(m.sender))
            &&& at(b, p2, enc_opt_bytes(m.signature))
            &&& at(b, p3, enc_u128(m.first_seen))
        }),
{
    let a = enc_bytes(m.data);
    let s = enc_opt_bytes(m.sender);
    let g = enc_opt_bytes(m.signature);
    let f = enc_u128(m.first_seen);
    lemma_at_concat(b, pos, a + s + g, f);
    lemma_at_concat(b, pos, a + s, g);
    lemma_at_concat(b, pos, a, s);
}

/// Two transactions encoded at the same place are the same.
pub proof fn lemma_tx_unique(b: Seq<u8>, pos: int, x: TxView, y: TxView)
    requires
        tx_ok(x),
        tx_ok(y),
        at(b, pos, enc_tx(x)),
        at(b, pos, enc_tx(y)),
    ensures
        x == y,
{
    lemma_tx_parts(b, pos, x);
    lemma_tx_parts(b, pos, y);
    lemma_bytes_unique(b, pos, x.data, y.data);
    let p1 = pos + enc_bytes(x.data).len();
    lemma_opt_bytes_unique(b, p1, x.sender, y.sender);
    let p2 = p1 + enc_opt_bytes(x.sender).len();
    lemma_opt_bytes_unique(b, p2, x.signature, y.signature);
    let p3 = p2 + enc_opt_bytes(x.signature).len();
    lemma_u128_unique(b, p3, x.first_seen, y.first_seen);
}

/// Decoding inverts encoding: the transaction that `decode` returns has the
/// input as its encoding, and only one transaction has a given encoding, so
/// decoding what `encode` gives returns the transaction encoded.
pub proof fn lemma_tx_round_trip(x: TxView, y: TxView)
    requires
        tx_ok(x),
        tx_ok(y),
        enc_tx(y) == enc_tx(x),
    ensures
        y == x,
{
    let b = enc_tx(x);
    assert(b.subrange(0, b.len() as int) =~= b);
    lemma_tx_unique(b, 0, x, y);
}

} // verus!
