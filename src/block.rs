use vstd::prelude::*;
use crate::codec::{
    at, enc_opt_bytes, enc_opt_hash, enc_u128, enc_u32, enc_u64, lemma_at_concat,
    lemma_at_same_len, lemma_opt_bytes_unique, lemma_opt_hash_unique, lemma_u128_unique,
    lemma_u32_unique, lemma_u64_unique, opt_bytes_ok, opt_seq, parse_hash, parse_opt_bytes, parse_opt_hash, parse_u128, parse_u32,
    parse_u64, write_opt_bytes, write_opt_hash, write_raw, write_u128, write_u32, write_u64,
};
use crate::crypto::{ecdsa_accepts, ecdsa_signature, public_key_of, PrivateKey, PublicKey, Signature};
use crate::error::{BlockFault, McError};
use crate::hash::{sha256_of, zero_digest};
use crate::transaction::{enc_tx, lemma_tx_unique, opt_key, opt_sig, parse_tx, tx_ok, tx_valid, Transaction, TxView};

verus! {

/// The part of a block that its hash and its signature cover.
#[derive(Clone, Copy, Debug)]
pub struct BlockHeader {
    pub version: u32,
    pub height: u32,
    /// Nanoseconds.
    pub timestamp: u128,
    /// SHA-256 of the concatenated encodings of the block's transactions.
    pub data_hash: crate::hash::Hash,
    /// The hash of the parent's header; none only at genesis.
    pub prev_block_header_hash: Option<crate::hash::Hash>,
}

/// The encoding of a header: version, height, timestamp, data hash, parent hash.
pub open spec fn enc_header(h: BlockHeader) -> Seq<u8> {
    enc_u32(h.version) + enc_u32(h.height) + enc_u128(h.timestamp) + h.data_hash@ + enc_opt_hash(
        h.prev_block_header_hash,
    )
}

/// A header's hash: SHA-256 of its encoding.
pub open spec fn header_hash(h: BlockHeader) -> Seq<u8> {
    sha256_of(enc_header(h))
}

/// The concatenated encodings of a list of transactions, in order.
pub open spec fn enc_tx_list(s: Seq<TxView>) -> Seq<u8>
    decreases s.len(),
{
    if s.len() == 0 {
        Seq::empty()
    } else {
        enc_tx_list(s.drop_last()) + enc_tx(s.last())
    }
}

/// The data hash of a list of transactions.
pub open spec fn spec_data_hash(s: Seq<TxView>) -> Seq<u8> {
    sha256_of(enc_tx_list(s))
}

pub open spec fn tx_views(v: Seq<Transaction>) -> Seq<TxView> {
    v.map_values(|t: Transaction| t@)
}

/// A block: a header, its transactions, and the validator's key and signature.
#[derive(Clone, Debug)]
pub struct Block {
    pub header: BlockHeader,
    pub transactions: Vec<Transaction>,
    pub validator_public_key: Option<PublicKey>,
    pub signature: Option<Signature>,
}

/// What a block holds, as mathematical values.
pub struct BlockView {
    pub header: BlockHeader,
    pub transactions: Seq<TxView>,
    pub validator: Option<Seq<u8>>,
    pub signature: Option<Seq<u8>>,
}

impl View for Block {
    type V = BlockView;

    open spec fn view(&self) -> BlockView {
        BlockView {
            header: self.header,
            transactions: tx_views(self.transactions@),
            validator: opt_key(self.validator_public_key),
            signature: opt_sig(self.signature),
        }
    }
}

/// The encoding of a block: header, transaction count, transactions,
/// validator key, signature.
pub open spec fn enc_block(b: BlockView) -> Seq<u8> {
    enc_header(b.header) + enc_u64(b.transactions.len() as u64) + enc_tx_list(b.transactions)
        + enc_opt_bytes(b.validator) + enc_opt_bytes(b.signature)
}

/// Every length in a block fits its prefix.
pub open spec fn block_ok(b: BlockView) -> bool {
    &&& b.transactions.len() <= u64::MAX
    &&& forall|i: int| 0 <= i < b.transactions.len() ==> tx_ok(#[trigger] b.transactions[i])
    &&& opt_bytes_ok(b.validator)
    &&& opt_bytes_ok(b.signature)
}

/// What checking a block's own content gives, in the order the checks run.
pub open spec fn verify_outcome(b: BlockView) -> Result<(), McError> {
    if b.signature is None {
        Err(McError::InvalidBlock(BlockFault::MissingSignature))
    } else if b.validator is None {
        Err(McError::InvalidBlock(BlockFault::MissingValidator))
    } else if !ecdsa_accepts(b.validator->0, enc_header(b.header), b.signature->0) {
        Err(McError::InvalidBlock(BlockFault::BadSignature))
    } else if exists|i: int| 0 <= i < b.transactions.len() && !tx_valid(#[trigger] b.transactions[i]) {
        Err(McError::InvalidBlock(BlockFault::BadTransaction))
    } else if b.header.data_hash@ != spec_data_hash(b.transactions) {
        Err(McError::InvalidBlock(BlockFault::BadDataHash))
    } else {
        Ok(())
    }
}

/// The fixed first block, the same on every node: version 1, height 0,
/// timestamp 0, zero data hash, no parent, no transactions, no signature.
pub open spec fn is_genesis(b: BlockView) -> bool {
    &&& b.header.version == 1
    &&& b.header.height == 0
    &&& b.header.timestamp == 0
    &&& b.header.data_hash@ == zero_digest()
    &&& b.header.prev_block_header_hash is None
    &&& b.transactions.len() == 0
    &&& b.validator is None
    &&& b.signature is None
}

impl BlockHeader {
    /// The encoded header: the bytes that are hashed and signed.
    pub fn bytes(&self) -> (r: Vec<u8>)
        ensures
            r@ == enc_header(*self),
    {
        let mut out: Vec<u8> = Vec::new();
        self.write(&mut out);
        assert(out@ =~= enc_header(*self));
        out
    }

    pub fn write(&self, out: &mut Vec<u8>)
        ensures
            final(out)@ == old(out)@ + enc_header(*self),
    {
        write_u32(out, self.version);
        write_u32(out, self.height);
        write_u128(out, self.timestamp);
        let d = self.data_hash.to_vec();
        write_raw(out, d.as_slice());
        write_opt_hash(out, self.prev_block_header_hash);
        assert(out@ =~= old(out)@ + enc_header(*self));
    }

    /// SHA-256 of the encoded header.
    pub fn hash(&self) -> (r: crate::hash::Hash)
        ensures
            r@ == header_hash(*self),
    {
        let b = self.bytes();
        crate::hash::sha256(b.as_slice())
    }
}

/// The pieces of an encoded header occur one after the other.
proof fn lemma_header_parts(b: Seq<u8>, pos: int, h: BlockHeader)
    ensures
        at(b, pos, enc_header(h)) <==> ({
            &&& at(b, pos, enc_u32(h.version))
            &&& at(b, pos + 4, enc_u32(h.height))
            &&& at(b, pos + 8, enc_u128(h.timestamp))
            &&& at(b, pos + 24, h.data_hash@)
            &&& at(b, pos + 56, enc_opt_hash(h.prev_block_header_hash))
        }),
{
    vstd::bytes::lemma_auto_spec_u32_to_from_le_bytes();
    vstd::bytes::lemma_auto_spec_u128_to_from_le_bytes();
    let a = enc_u32(h.version);
    let c = enc_u32(h.height);
    let t = enc_u128(h.timestamp);
    let d = h.data_hash@;
    let p = enc_opt_hash(h.prev_block_header_hash);
    lemma_at_concat(b, pos, a + c + t + d, p);
    lemma_at_concat(b, pos, a + c + t, d);
    lemma_at_concat(b, pos, a + c, t);
    lemma_at_concat(b, pos, a, c);
}

/// Reads a header at `pos`.
pub fn parse_header(b: &[u8], pos: usize) -> (r: Option<(BlockHeader, usize)>)
    requires
        pos <= b@.len(),
    ensures
        r matches Some((h, end)) ==> pos <= end <= b@.len() && at(b@, pos as int, enc_header(h))
            && end == pos + enc_header(h).len(),
        forall|h: BlockHeader| at(b@, pos as int, #[trigger] enc_header(h)) ==> (r matches Some((
            g,
            end,
        )) && g == h),
{
    let ghost bs = b@;
    let ghost p = pos as int;
    proof {
        vstd::bytes::lemma_auto_spec_u32_to_from_le_bytes();
        vstd::bytes::lemma_auto_spec_u128_to_from_le_bytes();
        assert forall|h: BlockHeader| at(bs, p, #[trigger] enc_header(h)) implies ({
            &&& at(bs, p, enc_u32(h.version))
            &&& at(bs, p + 4, enc_u32(h.height))
            &&& at(bs, p + 8, enc_u128(h.timestamp))
            &&& at(bs, p + 24, h.data_hash@)
            &&& at(bs, p + 56, enc_opt_hash(h.prev_block_header_hash))
        }) by {
            lemma_header_parts(bs, p, h);
        }
    }
    let (version, p1) = match parse_u32(b, pos) {
        Some(x) => x,
        None => return None,
    };
    let (height, p2) = match parse_u32(b, p1) {
        Some(x) => x,
        None => return None,
    };
    let (timestamp, p3) = match parse_u128(b, p2) {
        Some(x) => x,
        None => return None,
    };
    let (data_hash, p4) = match parse_hash(b, p3) {
        Some(x) => x,
        None => return None,
    };
    let (prev, p5) = match parse_opt_hash(b, p4) {
        Some(x) => x,
        None => return None,
    };
    let h = BlockHeader { version, height, timestamp, data_hash, prev_block_header_hash: prev };
    proof {
        lemma_header_parts(bs, p, h);
    }
    Some((h, p5))
}

/// A prefix of a list of transactions encodes to a prefix of the list's encoding.
proof fn lemma_tx_list_prefix(b: Seq<u8>, pos: int, ms: Seq<TxView>, k: int)
    requires
        0 <= k <= ms.len(),
        at(b, pos, enc_tx_list(ms)),
    ensures
        at(b, pos, enc_tx_list(ms.take(k))),
    decreases ms.len(),
{
    if k == ms.len() {
        assert(ms.take(k) =~= ms);
    } else {
        lemma_at_concat(b, pos, enc_tx_list(ms.drop_last()), enc_tx(ms.last()));
        lemma_tx_list_prefix(b, pos, ms.drop_last(), k);
        assert(ms.drop_last().take(k) =~= ms.take(k));
    }
}

/// Reads `n` transactions at `pos`.
fn parse_tx_list(b: &[u8], pos: usize, n: u64) -> (r: Option<(Vec<Transaction>, usize)>)
    requires
        pos <= b@.len(),
    ensures
        r matches Some((v, end)) ==> pos <= end <= b@.len() && v@.len() == n && at(
            b@,
            pos as int,
            enc_tx_list(tx_views(v@)),
        ) && end == pos + enc_tx_list(tx_views(v@)).len() && forall|i: int|
            0 <= i < v@.len() ==> tx_ok(#[trigger] tx_views(v@)[i]),
        forall|ms: Seq<TxView>|
            ms.len() == n && (forall|i: int| 0 <= i < ms.len() ==> tx_ok(#[trigger] ms[i])) && at(
                b@,
                pos as int,
                #[trigger] enc_tx_list(ms),
            ) ==> (r matches Some((v, end)) && tx_views(v@) == ms),
{
    let ghost bs = b@;
    let mut out: Vec<Transaction> = Vec::new();
    let mut p: usize = pos;
    let mut i: u64 = 0;
    proof {
        assert(tx_views(out@) =~= Seq::<TxView>::empty());
        assert(bs.subrange(pos as int, pos as int) =~= Seq::<u8>::empty());
    }
    while i < n
        invariant
            bs == b@,
            pos <= p <= b@.len(),
            i <= n,
            out@.len() == i,
            at(bs, pos as int, enc_tx_list(tx_views(out@))),
            p == pos + enc_tx_list(tx_views(out@)).len(),
            forall|j: int| 0 <= j < out@.len() ==> tx_ok(#[trigger] tx_views(out@)[j]),
            forall|ms: Seq<TxView>|
                ms.len() == n && (forall|j: int| 0 <= j < ms.len() ==> tx_ok(#[trigger] ms[j])) && at(
                    bs,
                    pos as int,
                    #[trigger] enc_tx_list(ms),
                ) ==> tx_views(out@) == ms.take(i as int),
        decreases n - i,
    {
        let ghost before = tx_views(out@);
        match parse_tx(b, p) {
            None => {
                proof {
                    assert forall|ms: Seq<TxView>|
                        ms.len() == n && (forall|j: int| 0 <= j < ms.len() ==> tx_ok(#[trigger] ms[j]))
                            && at(bs, pos as int, #[trigger] enc_tx_list(ms)) implies false by {
                        lemma_tx_list_prefix(bs, pos as int, ms, i + 1);
                        let pre = ms.take(i + 1);
                        assert(pre.drop_last() =~= ms.take(i as int));
                        lemma_at_concat(bs, pos as int, enc_tx_list(pre.drop_last()), enc_tx(pre.last()));
                        assert(tx_ok(ms[i as int]));
                    }
                }
                return None;
            },
            Some((t, p2)) => {
                out.push(t);
                proof {
                    let after = tx_views(out@);
                    assert(after.drop_last() =~= before);
                    assert(after.last() == t@);
                    lemma_at_concat(bs, pos as int, enc_tx_list(before), enc_tx(t@));
                    assert forall|j: int| 0 <= j < out@.len() implies tx_ok(#[trigger] tx_views(out@)[j]) by {
                        if j < before.len() {
                            assert(tx_views(out@)[j] == before[j]);
                        }
                    }
                    assert forall|ms: Seq<TxView>|
                        ms.len() == n && (forall|j: int| 0 <= j < ms.len() ==> tx_ok(#[trigger] ms[j]))
                            && at(bs, pos as int, #[trigger] enc_tx_list(ms)) implies after == ms.take(
                        i + 1,
                    ) by {
                        lemma_tx_list_prefix(bs, pos as int, ms, i + 1);
                        let pre = ms.take(i + 1);
                        assert(pre.drop_last() =~= ms.take(i as int));
                        lemma_at_concat(bs, pos as int, enc_tx_list(pre.drop_last()), enc_tx(pre.last()));
                        assert(tx_ok(ms[i as int]));
                        assert(after =~= pre);
                    }
                }
                p = p2;
                i = i + 1;
            },
        }
    }
    proof {
        assert forall|ms: Seq<TxView>|
            ms.len() == n && (forall|j: int| 0 <= j < ms.len() ==> tx_ok(#[trigger] ms[j])) && at(
                bs,
                pos as int,
                #[trigger] enc_tx_list(ms),
            ) implies tx_views(out@) == ms by {
            assert(ms.take(n as int) =~= ms);
        }
    }
    Some((out, p))
}

/// The encoded transactions of a list, concatenated in order.
fn write_tx_list(out: &mut Vec<u8>, txs: &[Transaction])
    ensures
        final(out)@ == old(out)@ + enc_tx_list(tx_views(txs@)),
        forall|j: int| 0 <= j < txs@.len() ==> tx_ok(#[trigger] tx_views(txs@)[j]),
{
    let mut i: usize = 0;
    while i < txs.len()
        invariant
            i <= txs@.len(),
            out@ == old(out)@ + enc_tx_list(tx_views(txs@.take(i as int))),
            forall|j: int| 0 <= j < i ==> tx_ok(#[trigger] tx_views(txs@)[j]),
        decreases txs@.len() - i,
    {
        let ghost mid = out@;
        txs[i].write(out);
        proof {
            let pre = tx_views(txs@.take(i + 1));
            assert(pre.drop_last() =~= tx_views(txs@.take(i as int)));
            assert(pre.last() == txs@[i as int]@);
            assert(out@ =~= old(out)@ + enc_tx_list(pre));
        }
        i += 1;
    }
    assert(txs@.take(txs@.len() as int) =~= txs@);
}

/// SHA-256 of the concatenated encodings of `transactions`, in order.
pub fn data_hash(transactions: &[Transaction]) -> (r: crate::hash::Hash)
    ensures
        r@ == spec_data_hash(tx_views(transactions@)),
{
    let mut buf: Vec<u8> = Vec::new();
    write_tx_list(&mut buf, transactions);
    assert(buf@ =~= enc_tx_list(tx_views(transactions@)));
    crate::hash::sha256(buf.as_slice())
}

/// The genesis block.
pub fn create_genesis_block() -> (r: Block)
    ensures
        is_genesis(r@),
{
    let header = BlockHeader {
        version: 1,
        height: 0,
        timestamp: 0,
        prev_block_header_hash: None,
        data_hash: crate::hash::Hash::zero(),
    };
    let r = Block::new(header, Vec::new());
    assert(r@.transactions =~= Seq::<TxView>::empty());
    r
}

/// Copies a list of transactions.
pub fn copy_txs(txs: &[Transaction]) -> (r: Vec<Transaction>)
    ensures
        tx_views(r@) == tx_views(txs@),
{
    let mut out: Vec<Transaction> = Vec::new();
    let mut i: usize = 0;
    while i < txs.len()
        invariant
            i <= txs@.len(),
            out@.len() == i,
            tx_views(out@) =~= tx_views(txs@.take(i as int)),
        decreases txs@.len() - i,
    {
        let ghost before = out@;
        out.push(txs[i].duplicate());
        proof {
            assert forall|j: int| 0 <= j < i + 1 implies #[trigger] tx_views(out@)[j] == tx_views(txs@.take(i + 1))[j] by {
                if j < i {
                    assert(out@[j] == before[j]);
                    assert(tx_views(before)[j] == tx_views(txs@.take(i as int))[j]);
                }
            }
        }
        i += 1;
        assert(tx_views(out@) =~= tx_views(txs@.take(i as int)));
    }
    assert(txs@.take(txs@.len() as int) =~= txs@);
    out
}

impl Block {
    /// An unsigned block.
    pub fn new(header: BlockHeader, transactions: Vec<Transaction>) -> (r: Block)
        ensures
            r@ == (BlockView {
                header,
                transactions: tx_views(transactions@),
                validator: None,
                signature: None,
            }),
    {
        Block { header, transactions, validator_public_key: None, signature: None }
    }

    /// A copy with the same view.
    pub fn duplicate(&self) -> (r: Block)
        ensures
            r@ == self@,
    {
        Block {
            header: self.header,
            transactions: copy_txs(self.transactions.as_slice()),
            validator_public_key: crate::transaction::copy_key(&self.validator_public_key),
            signature: crate::transaction::copy_sig(&self.signature),
        }
    }

    /// The hash of a header; the validator key and signature are not part of it.
    pub fn hash_header(header: &BlockHeader) -> (r: crate::hash::Hash)
        ensures
            r@ == header_hash(*header),
    {
        header.hash()
    }

    /// An unsigned child of `prev_header` holding `transactions`, stamped with
    /// `timestamp`.
    pub fn from_prev_header(
        prev_header: &BlockHeader,
        transactions: Vec<Transaction>,
        timestamp: u128,
    ) -> (r: Block)
        requires
            prev_header.height < u32::MAX,
        ensures
            r@.header.version == prev_header.version,
            r@.header.height == prev_header.height + 1,
            r@.header.timestamp == timestamp,
            r@.header.data_hash@ == spec_data_hash(tx_views(transactions@)),
            r@.header.prev_block_header_hash matches Some(h) && h@ == header_hash(*prev_header),
            r@.transactions == tx_views(transactions@),
            r@.validator is None,
            r@.signature is None,
    {
        let data_hash = data_hash(transactions.as_slice());
        let header = BlockHeader {
            version: prev_header.version,
            height: prev_header.height + 1,
            timestamp,
            data_hash,
            prev_block_header_hash: Some(Block::hash_header(prev_header)),
        };
        Block::new(header, transactions)
    }

    /// SHA-256 of the encoded header.
    pub fn hash(&self) -> (r: crate::hash::Hash)
        ensures
            r@ == header_hash(self.header),
    {
        self.header.hash()
    }

    /// Signs the encoded header and records the validator's public key.
    pub fn sign(&mut self, private_key: &PrivateKey)
        ensures
            final(self)@ == (BlockView {
                validator: Some(public_key_of(private_key.secret())),
                signature: Some(ecdsa_signature(private_key.secret(), enc_header(old(self).header))),
                ..old(self)@
            }),
            ecdsa_accepts(
                public_key_of(private_key.secret()),
                enc_header(old(self).header),
                ecdsa_signature(private_key.secret(), enc_header(old(self).header)),
            ),
    {
        let bytes = self.header.bytes();
        let signature = private_key.sign(bytes.as_slice());
        self.validator_public_key = Some(private_key.public_key());
        self.signature = Some(signature);
    }

    /// Checks the signature, every transaction and the data hash, in that order.
    pub fn verify(&self) -> (r: Result<(), McError>)
        ensures
            r == verify_outcome(self@),
    {
        let sig = match &self.signature {
            None => return Err(McError::InvalidBlock(BlockFault::MissingSignature)),
            Some(s) => s,
        };
        let key = match &self.validator_public_key {
            None => return Err(McError::InvalidBlock(BlockFault::MissingValidator)),
            Some(k) => k,
        };
        let bytes = self.header.bytes();
        if !sig.verify(bytes.as_slice(), key) {
            return Err(McError::InvalidBlock(BlockFault::BadSignature));
        }
        let mut i: usize = 0;
        while i < self.transactions.len()
            invariant
                i <= self.transactions@.len(),
                forall|j: int| 0 <= j < i ==> tx_valid(#[trigger] self@.transactions[j]),
                self@.signature is Some,
                self@.validator is Some,
                ecdsa_accepts(self@.validator->0, enc_header(self@.header), self@.signature->0),
            decreases self.transactions@.len() - i,
        {
            let res = self.transactions[i].verify();
            if res.is_err() {
                assert(self@.transactions[i as int] == self.transactions@[i as int]@);
                assert(!tx_valid(self@.transactions[i as int]));
                assert(exists|j: int| 0 <= j < self@.transactions.len() && !tx_valid(#[trigger] self@.transactions[j]));
                return Err(McError::InvalidBlock(BlockFault::BadTransaction));
            }
            i += 1;
        }
        let d = data_hash(self.transactions.as_slice());
        if !d.same_as(&self.header.data_hash) {
            proof {
                crate::hash::Hash::lemma_view_injective(d, self.header.data_hash);
            }
            return Err(McError::InvalidBlock(BlockFault::BadDataHash));
        }
        Ok(())
    }

    /// Appends the encoding of this block to `out`.
    pub fn write(&self, out: &mut Vec<u8>)
        ensures
            final(out)@ == old(out)@ + enc_block(self@),
            block_ok(self@),
    {
        self.header.write(out);
        write_u64(out, self.transactions.len() as u64);
        write_tx_list(out, self.transactions.as_slice());
        match &self.validator_public_key {
            None => write_opt_bytes(out, None),
            Some(k) => write_opt_bytes(out, Some(k.bytes.as_slice())),
        }
        match &self.signature {
            None => write_opt_bytes(out, None),
            Some(s) => write_opt_bytes(out, Some(s.bytes.as_slice())),
        }
        assert(out@ =~= old(out)@ + enc_block(self@));
    }

    pub fn encode(&self) -> (r: Vec<u8>)
        ensures
            r@ == enc_block(self@),
            block_ok(self@),
    {
        let mut out: Vec<u8> = Vec::new();
        self.write(&mut out);
        assert(out@ =~= enc_block(self@));
        out
    }

    /// Reads a block from exactly the bytes of its encoding.
    pub fn decode(data: &[u8]) -> (r: Result<Block, McError>)
        ensures
            r matches Ok(b) ==> enc_block(b@) == data@ && block_ok(b@),
            r matches Err(e) ==> e == McError::Undecodable,
            forall|m: BlockView| block_ok(m) && #[trigger] enc_block(m) == data@ ==> (r matches Ok(b)
                && b@ == m),
    {
        match parse_block(data, 0) {
            Some((b, end)) => {
                if end == data.len() {
                    proof {
                        assert(data@.subrange(0, end as int) =~= data@);
                    }
                    Ok(b)
                } else {
                    proof {
                        assert forall|m: BlockView| block_ok(m) && #[trigger] enc_block(m) == data@ implies false by {
                            assert(data@.subrange(0, data@.len() as int) =~= data@);
                        }
                    }
                    Err(McError::Undecodable)
                }
            },
            None => {
                proof {
                    assert forall|m: BlockView| block_ok(m) && #[trigger] enc_block(m) == data@ implies false by {
                        assert(data@.subrange(0, data@.len() as int) =~= data@);
                    }
                }
                Err(McError::Undecodable)
            },
        }
    }
}

/// The pieces of an encoded block occur one after the other.
proof fn lemma_block_parts(b: Seq<u8>, pos: int, m: BlockView)
    ensures
        at(b, pos, enc_block(m)) <==> ({
            let p1 = pos + enc_header(m.header).len();
            let p2 = p1 + 8;
            let p3 = p2 + enc_tx_list(m.transactions).len();
            let p4 = p3 + enc_opt_bytes(m.validator).len();
            &&& at(b, pos, enc_header(m.header))
            &&& at(b, p1, enc_u64(m.transactions.len() as u64))
            &&& at(b, p2, enc_tx_list(m.transactions))
            &&& at(b, p3, enc_opt_bytes(m.validator))
            &&& at(b, p4, enc_opt_bytes(m.signature))
        }),
{
    vstd::bytes::lemma_auto_spec_u64_to_from_le_bytes();
    let h = enc_header(m.header);
    let n = enc_u64(m.transactions.len() as u64);
    let t = enc_tx_list(m.transactions);
    let v = enc_opt_bytes(m.validator);
    let s = enc_opt_bytes(m.signature);
    lemma_at_concat(b, pos, h + n + t + v, s);
    lemma_at_concat(b, pos, h + n + t, v);
    lemma_at_concat(b, pos, h + n, t);
    lemma_at_concat(b, pos, h, n);
}

/// Reads a block at `pos`.
pub fn parse_block(b: &[u8], pos: usize) -> (r: Option<(Block, usize)>)
    requires
        pos <= b@.len(),
    ensures
        r matches Some((x, end)) ==> pos <= end <= b@.len() && at(b@, pos as int, enc_block(x@))
            && end == pos + enc_block(x@).len() && block_ok(x@),
        forall|m: BlockView| block_ok(m) && at(b@, pos as int, #[trigger] enc_block(m)) ==> (r matches Some((
            x,
            end,
        )) && x@ == m),
{
    let ghost bs = b@;
    let ghost p = pos as int;
    proof {
        vstd::bytes::lemma_auto_spec_u64_to_from_le_bytes();
        assert forall|m: BlockView| block_ok(m) && at(bs, p, #[trigger] enc_block(m)) implies ({
            let p1 = p + enc_header(m.header).len();
            let p2 = p1 + 8;
            let p3 = p2 + enc_tx_list(m.transactions).len();
            let p4 = p3 + enc_opt_bytes(m.validator).len();
            &&& at(bs, p, enc_header(m.header))
            &&& at(bs, p1, enc_u64(m.transactions.len() as u64))
            &&& at(bs, p2, enc_tx_list(m.transactions))
            &&& at(bs, p3, enc_opt_bytes(m.validator))
            &&& at(bs, p4, enc_opt_bytes(m.signature))
        }) by {
            lemma_block_parts(bs, p, m);
        }
    }
    let (header, p1) = match parse_header(b, pos) {
        Some(x) => x,
        None => return None,
    };
    let (n, p2) = match parse_u64(b, p1) {
        Some(x) => x,
        None => return None,
    };
    let (transactions, p3) = match parse_tx_list(b, p2, n) {
        Some(x) => x,
        None => return None,
    };
    let (validator, p4) = match parse_opt_bytes(b, p3) {
        Some(x) => x,
        None => return None,
    };
    let (signature, p5) = match parse_opt_bytes(b, p4) {
        Some(x) => x,
        None => return None,
    };
    let ghost gv = opt_seq(validator);
    let ghost gs = opt_seq(signature);
    let x = Block {
        header,
        transactions,
        validator_public_key: match validator {
            None => None,
            Some(v) => Some(PublicKey { bytes: v }),
        },
        signature: match signature {
            None => None,
            Some(v) => Some(Signature { bytes: v }),
        },
    };
    assert(x@.validator == gv);
    assert(x@.signature == gs);
    proof {
        lemma_block_parts(bs, p, x@);
    }
    Some((x, p5))
}

/// Two headers encoded at the same place are the same.
pub proof fn lemma_header_unique(b: Seq<u8>, pos: int, x: BlockHeader, y: BlockHeader)
    requires
        at(b, pos, enc_header(x)),
        at(b, pos, enc_header(y)),
    ensures
        x == y,
{
    lemma_header_parts(b, pos, x);
    lemma_header_parts(b, pos, y);
    lemma_u32_unique(b, pos, x.version, y.version);
    lemma_u32_unique(b, pos + 4, x.height, y.height);
    lemma_u128_unique(b, pos + 8, x.timestamp, y.timestamp);
    lemma_at_same_len(b, pos + 24, x.data_hash@, y.data_hash@);
    crate::hash::Hash::lemma_view_injective(x.data_hash, y.data_hash);
    lemma_opt_hash_unique(b, pos + 56, x.prev_block_header_hash, y.prev_block_header_hash);
}

/// Two lists of as many transactions encoded at the same place are the same.
pub proof fn lemma_tx_list_unique(b: Seq<u8>, pos: int, x: Seq<TxView>, y: Seq<TxView>)
    requires
        x.len() == y.len(),
        forall|i: int| 0 <= i < x.len() ==> tx_ok(#[trigger] x[i]),
        forall|i: int| 0 <= i < y.len() ==> tx_ok(#[trigger] y[i]),
        at(b, pos, enc_tx_list(x)),
        at(b, pos, enc_tx_list(y)),
    ensures
        x == y,
    decreases x.len(),
{
    if x.len() > 0 {
        lemma_at_concat(b, pos, enc_tx_list(x.drop_last()), enc_tx(x.last()));
        lemma_at_concat(b, pos, enc_tx_list(y.drop_last()), enc_tx(y.last()));
        lemma_tx_list_unique(b, pos, x.drop_last(), y.drop_last());
        assert(tx_ok(x[x.len() - 1]));
        assert(tx_ok(y[y.len() - 1]));
        lemma_tx_unique(b, pos + enc_tx_list(x.drop_last()).len(), x.last(), y.last());
        assert(x =~= x.drop_last().push(x.last()));
        assert(y =~= y.drop_last().push(y.last()));
    } else {
        assert(x =~= y);
    }
}

/// Two blocks encoded at the same place are the same.
pub proof fn lemma_block_unique(b: Seq<u8>, pos: int, x: BlockView, y: BlockView)
    requires
        block_ok(x),
        block_ok(y),
        at(b, pos, enc_block(x)),
        at(b, pos, enc_block(y)),
    ensures
        x == y,
{
    vstd::bytes::lemma_auto_spec_u64_to_from_le_bytes();
    lemma_block_parts(b, pos, x);
    lemma_block_parts(b, pos, y);
    lemma_header_unique(b, pos, x.header, y.header);
    let p1 = pos + enc_header(x.header).len();
    lemma_u64_unique(b, p1, x.transactions.len() as u64, y.transactions.len() as u64);
    lemma_tx_list_unique(b, p1 + 8, x.transactions, y.transactions);
    let p3 = p1 + 8 + enc_tx_list(x.transactions).len();
    lemma_opt_bytes_unique(b, p3, x.validator, y.validator);
    let p4 = p3 + enc_opt_bytes(x.validator).len();
    lemma_opt_bytes_unique(b, p4, x.signature, y.signature);
}

/// Decoding inverts encoding: the block that `decode` returns has the input
/// as its encoding, and only one block has a given encoding, so decoding what
/// `encode` gives returns the block encoded.
pub proof fn lemma_block_round_trip(x: BlockView, y: BlockView)
    requires
        block_ok(x),
        block_ok(y),
        enc_block(y) == enc_block(x),
    ensures
        y == x,
{
    let b = enc_block(x);
    assert(b.subrange(0, b.len() as int) =~= b);
    lemma_block_unique(b, 0, x, y);
}

} // verus!
