use vstd::prelude::*;
use crate::block::{enc_header, header_hash, spec_data_hash, verify_outcome, Block, BlockView};
use crate::blockchain::{added, apply_block, apply_blocks, block_effect, chain_view, unchanged, Blockchain};
use crate::crypto::{ecdsa_signature, public_key_of, PrivateKey};
use crate::error::McError;
use crate::mempool::{has_key, lemma_sort_by_seen_permutes, sort_by_seen, upsert, values, TxPool};
use crate::message::{block_views, enc_message, message_ok, Message, MessageView, Status, RPC};
use crate::transaction::{tx_hash, tx_valid, Transaction, TxView};
use crate::validator::{validate_outcome, validate_spec};

verus! {

/// Something the node asks its transport to do.
#[derive(Debug)]
pub enum Outgoing {
    /// Send a message to one peer.
    Send(String, Message),
    /// Send a message to every known peer.
    Broadcast(Message),
}

/// `o` broadcasts a transaction whose view is `t`.
pub open spec fn broadcasts_tx(o: Outgoing, t: TxView) -> bool {
    match o {
        Outgoing::Broadcast(Message::Transaction(u)) => u@ == t,
        _ => false,
    }
}

/// `o` broadcasts a block whose view is `b`.
pub open spec fn broadcasts_block(o: Outgoing, b: BlockView) -> bool {
    match o {
        Outgoing::Broadcast(Message::Block(x)) => x@ == b,
        _ => false,
    }
}

/// `o` sends to `to` the message whose view is `m`.
pub open spec fn sends(o: Outgoing, to: Seq<char>, m: MessageView) -> bool {
    match o {
        Outgoing::Send(t, x) => t@ == to && x@ == m,
        _ => false,
    }
}

/// `o` sends to `to` the blocks of `chain` from `start` up to `end`.
pub open spec fn sends_blocks(o: Outgoing, to: Seq<char>, chain: Seq<BlockView>, start: u32, end: u32) -> bool {
    match o {
        Outgoing::Send(t, Message::Blocks(bs)) => t@ == to && bs@.len() == (if start <= end { end - start } else { 0 })
            && forall|i: int| 0 <= i < bs@.len() ==> (#[trigger] bs@[i])@ == chain[start + i],
        _ => false,
    }
}

/// `new` holds the blocks of `old`, and perhaps more after them.
pub open spec fn extends(old: Blockchain, new: Blockchain) -> bool {
    &&& old.blocks().len() <= new.blocks().len()
    &&& old.headers().len() <= new.headers().len()
    &&& forall|i: int| 0 <= i < old.blocks().len() ==> #[trigger] new.blocks()[i] == old.blocks()[i]
    &&& forall|i: int| 0 <= i < old.headers().len() ==> #[trigger] new.headers()[i] == old.headers()[i]
}

/// Every transaction in the list is valid and was timestamped.
pub open spec fn all_admissible(s: Seq<(Seq<u8>, TxView)>) -> bool {
    forall|i: int| 0 <= i < s.len() ==> tx_valid((#[trigger] s[i]).1) && s[i].1.first_seen > 0
}

/// A node's chain and mempool, and what it does with each message.
pub struct MessageProcessor {
    node_id: String,
    blockchain: Blockchain,
    tx_pool: TxPool,
    started: bool,
}

impl MessageProcessor {
    pub closed spec fn chain(&self) -> Blockchain {
        self.blockchain
    }

    pub closed spec fn pool(&self) -> TxPool {
        self.tx_pool
    }

    pub closed spec fn id(&self) -> Seq<char> {
        self.node_id@
    }

    /// Whether the start sequence has run.
    pub closed spec fn is_started(&self) -> bool {
        self.started
    }

    /// The chain and pool are well formed, and the pool holds only valid,
    /// timestamped transactions.
    pub open spec fn wf(&self) -> bool {
        &&& self.chain().wf()
        &&& self.pool().wf()
        &&& all_admissible(self.pool().all())
        &&& all_admissible(self.pool().pending_entries())
    }

    /// A node with a chain of `genesis_block` alone and an empty pool.
    pub fn new(node_id: String, genesis_block: Block) -> (r: MessageProcessor)
        requires
            genesis_block.header.height == 0,
        ensures
            r.wf(),
            r.id() == node_id@,
            r.chain().headers() == seq![genesis_block.header],
            r.chain().blocks() == seq![genesis_block@],
            r.pool().all().len() == 0,
            !r.is_started(),
    {
        MessageProcessor {
            node_id,
            blockchain: Blockchain::new(genesis_block),
            tx_pool: TxPool::new(),
            started: false,
        }
    }

    /// The start sequence, which runs once: the first call asks every peer for
    /// its status; later calls ask nothing.
    pub fn start(&mut self) -> (r: Vec<Outgoing>)
        ensures
            final(self).is_started(),
            final(self).chain() == old(self).chain(),
            final(self).pool() == old(self).pool(),
            final(self).id() == old(self).id(),
            !old(self).is_started() ==> r@.len() == 1 && r@[0] matches Outgoing::Broadcast(Message::GetStatus),
            old(self).is_started() ==> r@.len() == 0,
    {
        let mut out: Vec<Outgoing> = Vec::new();
        if !self.started {
            self.started = true;
            out.push(Outgoing::Broadcast(Message::GetStatus));
        }
        out
    }

    pub fn blockchain(&self) -> (r: &Blockchain)
        ensures
            *r == self.chain(),
    {
        &self.blockchain
    }

    pub fn tx_pool(&self) -> (r: &TxPool)
        ensures
            *r == self.pool(),
    {
        &self.tx_pool
    }

    pub fn node_id(&self) -> (r: &String)
        ensures
            r@ == self.id(),
    {
        &self.node_id
    }

    /// Admits a transaction first seen at `now`: one already known is dropped
    /// (`Ok(None)`); otherwise it is timestamped, verified, put in the pool, and
    /// handed back for broadcast.
    pub fn process_transaction(&mut self, tx: Transaction, now: u128) -> (r: Result<Option<Transaction>, McError>)
        requires
            old(self).wf(),
        ensures
            final(self).wf(),
            final(self).chain() == old(self).chain(),
            final(self).id() == old(self).id(),
            has_key(old(self).pool().all(), tx_hash(tx@)) ==> r == Ok::<Option<Transaction>, McError>(None) && final(self).pool() == old(self).pool(),
            !has_key(old(self).pool().all(), tx_hash(tx@)) && now == 0 ==> r == Err::<Option<Transaction>, McError>(McError::MempoolUntimed)
                && final(self).pool() == old(self).pool(),
            !has_key(old(self).pool().all(), tx_hash(tx@)) && now > 0 ==> ({
                let t = TxView { first_seen: now, ..tx@ };
                &&& !tx_valid(t) ==> r == Err::<Option<Transaction>, McError>(McError::InvalidTransaction)
                    && final(self).pool() == old(self).pool()
                &&& tx_valid(t) ==> (r matches Ok(Some(u)) && u@ == t)
                    && final(self).pool().all() == upsert(old(self).pool().all(), tx_hash(t), t)
                    && final(self).pool().pending_entries() == upsert(old(self).pool().pending_entries(), tx_hash(t), t)
            }),
    {
        let h = tx.hash();
        if self.tx_pool.has_tx(&h) {
            return Ok(None);
        }
        if now == 0 {
            return Err(McError::MempoolUntimed);
        }
        let mut tx = tx;
        tx.set_first_seen(now);
        tx.verify()?;
        let ghost old_all = self.tx_pool.all();
        let ghost old_pending = self.tx_pool.pending_entries();
        self.tx_pool.add_tx(tx.duplicate());
        proof {
            lemma_upsert_admissible(old_all, tx_hash(tx@), tx@);
            lemma_upsert_admissible(old_pending, tx_hash(tx@), tx@);
        }
        Ok(Some(tx))
    }

    /// Adds a block to the chain; on success it is handed back for broadcast.
    pub fn process_block(&mut self, block: Block) -> (r: Result<Block, McError>)
        requires
            old(self).wf(),
        ensures
            final(self).wf(),
            final(self).pool() == old(self).pool(),
            final(self).id() == old(self).id(),
            validate_outcome(old(self).chain().headers(), block@, match r {
                Ok(_) => Ok(()),
                Err(e) => Err(e),
            }),
            r matches Ok(b) ==> b@ == block@ && added(old(self).chain(), final(self).chain(), block@),
            chain_view(final(self).chain()) == apply_block(chain_view(old(self).chain()), block@),
            r is Err ==> unchanged(old(self).chain(), final(self).chain()),
            validate_spec(old(self).chain().headers(), block@) is Ok ==> (match block_effect(
                old(self).chain().state(),
                block@.transactions,
            ) {
                Ok(_) => r is Ok,
                Err(e) => r == Err::<Block, McError>(e),
            }),
    {
        let copy = block.duplicate();
        match self.blockchain.add_block(block) {
            Ok(()) => Ok(copy),
            Err(e) => Err(e),
        }
    }

    /// Adds each block in order; a failure does not stop the rest.
    fn process_blocks(&mut self, blocks: Vec<Block>)
        requires
            old(self).wf(),
        ensures
            final(self).wf(),
            final(self).pool() == old(self).pool(),
            final(self).id() == old(self).id(),
            extends(old(self).chain(), final(self).chain()),
            chain_view(final(self).chain()) == apply_blocks(chain_view(old(self).chain()), block_views(blocks@)),
    {
        let mut i: usize = 0;
        while i < blocks.len()
            invariant
                i <= blocks@.len(),
                self.wf(),
                self.pool() == old(self).pool(),
                self.id() == old(self).id(),
                extends(old(self).chain(), self.chain()),
                chain_view(self.chain()) == apply_blocks(chain_view(old(self).chain()), block_views(blocks@.take(i as int))),
            decreases blocks@.len() - i,
        {
            let b = blocks[i].duplicate();
            let _ = self.blockchain.add_block(b);
            proof {
                let pre = block_views(blocks@.take(i + 1));
                assert(pre.drop_last() =~= block_views(blocks@.take(i as int)));
                assert(pre.last() == blocks@[i as int]@);
            }
            i += 1;
        }
        assert(blocks@.take(blocks@.len() as int) =~= blocks@);
    }

    /// Asks a peer that is ahead for the blocks this node lacks.
    fn process_status(&self, from: String, status: Status) -> (r: Option<Outgoing>)
        requires
            self.wf(),
        ensures
            ({
                let height = self.chain().headers().len() - 1;
                &&& status.height > height && status.height < u32::MAX ==> (r matches Some(o)
                    && sends(o, from@, MessageView::GetBlocks(height as u32, (status.height + 1) as u32)))
                &&& !(status.height > height && status.height < u32::MAX) ==> r is None
            }),
    {
        let height = self.blockchain.height();
        if height < status.height && status.height < u32::MAX {
            Some(Outgoing::Send(from, Message::GetBlocks(std::ops::Range { start: height, end: status.height + 1 })))
        } else {
            None
        }
    }

    /// Handles one message from `from` at time `now`, and returns what to send.
    pub fn process_message(&mut self, from: String, msg: Message, now: u128) -> (r: Result<Vec<Outgoing>, McError>)
        requires
            old(self).wf(),
        ensures
            final(self).wf(),
            final(self).id() == old(self).id(),
            handled(*old(self), *final(self), from@, msg@, now, r),
    {
        match msg {
            Message::Transaction(tx) => {
                let mut out: Vec<Outgoing> = Vec::new();
                match self.process_transaction(tx, now)? {
                    Some(t) => out.push(Outgoing::Broadcast(Message::Transaction(t))),
                    None => {},
                }
                Ok(out)
            },
            Message::Block(block) => {
                let b = self.process_block(block)?;
                let mut out: Vec<Outgoing> = Vec::new();
                out.push(Outgoing::Broadcast(Message::Block(b)));
                Ok(out)
            },
            Message::Text(_) => Ok(Vec::new()),
            Message::GetStatus => {
                let height = self.blockchain.height();
                let status = Status { id: self.node_id.clone(), height };
                let mut out: Vec<Outgoing> = Vec::new();
                out.push(Outgoing::Send(from, Message::Status(status)));
                Ok(out)
            },
            Message::Status(status) => {
                let mut out: Vec<Outgoing> = Vec::new();
                match self.process_status(from, status) {
                    Some(o) => out.push(o),
                    None => {},
                }
                Ok(out)
            },
            Message::GetBlocks(range) => {
                let blocks = self.blockchain.get_blocks(range.start, range.end)?;
                let mut out: Vec<Outgoing> = Vec::new();
                out.push(Outgoing::Send(from, Message::Blocks(blocks)));
                Ok(out)
            },
            Message::Blocks(blocks) => {
                self.process_blocks(blocks);
                Ok(Vec::new())
            },
        }
    }

    /// Decodes an envelope and handles its message.
    pub fn process_rpc(&mut self, rpc: &RPC, now: u128) -> (r: Result<Vec<Outgoing>, McError>)
        requires
            old(self).wf(),
        ensures
            final(self).wf(),
            forall|m: MessageView| message_ok(m) && #[trigger] enc_message(m) == rpc.data@ ==> handled(
                *old(self),
                *final(self),
                rpc.from@,
                m,
                now,
                r,
            ),
            (forall|m: MessageView| !(message_ok(m) && #[trigger] enc_message(m) == rpc.data@)) ==> r == Err::<
                Vec<Outgoing>,
                McError,
            >(McError::Undecodable) && final(self).chain() == old(self).chain() && final(self).pool() == old(
                self,
            ).pool(),
    {
        let msg = Message::from_rpc(rpc)?;
        self.process_message(rpc.from.clone(), msg, now)
    }
}

/// What handling message `m` from `from` at time `now` does: `r` is the
/// outcome and `new` the node after it.
pub open spec fn handled(
    old: MessageProcessor,
    new: MessageProcessor,
    from: Seq<char>,
    m: MessageView,
    now: u128,
    r: Result<Vec<Outgoing>, McError>,
) -> bool {
    match m {
        MessageView::Transaction(t) => new.chain() == old.chain() && {
            let u = TxView { first_seen: now, ..t };
            if has_key(old.pool().all(), tx_hash(t)) {
                (r matches Ok(v) && v@.len() == 0) && new.pool() == old.pool()
            } else if now == 0 {
                r == Err::<Vec<Outgoing>, McError>(McError::MempoolUntimed) && new.pool() == old.pool()
            } else if !tx_valid(u) {
                r == Err::<Vec<Outgoing>, McError>(McError::InvalidTransaction) && new.pool() == old.pool()
            } else {
                (r matches Ok(v) && v@.len() == 1 && broadcasts_tx(v@[0], u))
                    && new.pool().all() == upsert(old.pool().all(), tx_hash(u), u)
                    && new.pool().pending_entries() == upsert(old.pool().pending_entries(), tx_hash(u), u)
            }
        },
        MessageView::Block(b) => new.pool() == old.pool()
            && chain_view(new.chain()) == apply_block(chain_view(old.chain()), b)
            && validate_outcome(old.chain().headers(), b, match r {
                Ok(_) => Ok(()),
                Err(e) => Err(e),
            })
            && (validate_spec(old.chain().headers(), b) is Ok ==> match block_effect(old.chain().state(), b.transactions) {
                Ok(_) => r is Ok,
                Err(e) => r == Err::<Vec<Outgoing>, McError>(e),
            })
            && match r {
                Ok(v) => v@.len() == 1 && broadcasts_block(v@[0], b) && added(old.chain(), new.chain(), b),
                Err(_) => unchanged(old.chain(), new.chain()),
            },
        MessageView::Text(_) => (r matches Ok(v) && v@.len() == 0) && new.chain() == old.chain()
            && new.pool() == old.pool(),
        MessageView::GetStatus => (r matches Ok(v) && v@.len() == 1
            && sends(v@[0], from, MessageView::Status(old.id(), (old.chain().headers().len() - 1) as u32)))
            && new.chain() == old.chain() && new.pool() == old.pool(),
        MessageView::Status(_, h) => new.chain() == old.chain()
            && new.pool() == old.pool() && (r matches Ok(v) && ({
            let height = old.chain().headers().len() - 1;
            &&& h > height && h < u32::MAX ==> v@.len() == 1
                && sends(v@[0], from, MessageView::GetBlocks(height as u32, (h + 1) as u32))
            &&& !(h > height && h < u32::MAX) ==> v@.len() == 0
        })),
        MessageView::GetBlocks(start, end) => new.chain() == old.chain()
            && new.pool() == old.pool() && (end > old.chain().headers().len()
                ==> r == Err::<Vec<Outgoing>, McError>(McError::RangeOutOfBounds))
            && (end <= old.chain().headers().len() ==> (r matches Ok(v) && v@.len() == 1
                && sends_blocks(v@[0], from, old.chain().blocks(), start, end))),
        MessageView::Blocks(bs) => (r matches Ok(v) && v@.len() == 0) && new.pool() == old.pool()
            && extends(old.chain(), new.chain()) && chain_view(new.chain()) == apply_blocks(chain_view(old.chain()), bs),
    }
}

proof fn lemma_upsert_admissible(s: Seq<(Seq<u8>, TxView)>, k: Seq<u8>, t: TxView)
    requires
        all_admissible(s),
        tx_valid(t),
        t.first_seen > 0,
    ensures
        all_admissible(upsert(s, k, t)),
{
    let u = upsert(s, k, t);
    assert forall|i: int| 0 <= i < u.len() implies tx_valid((#[trigger] u[i]).1) && u[i].1.first_seen > 0 by {
        if i < s.len() && u[i] != (k, t) {
            assert(u[i] == s[i]);
        }
    }
}

/// Every transaction that a well-formed node holds in its pool, pending or
/// not, carries a valid signature and a non-zero first-seen time.
pub proof fn lemma_admitted_transactions_valid(p: MessageProcessor)
    requires
        p.wf(),
    ensures
        forall|i: int| 0 <= i < p.pool().all().len() ==> tx_valid((#[trigger] p.pool().all()[i]).1) && p.pool().all()[i].1.first_seen > 0,
        forall|i: int| 0 <= i < p.pool().pending_entries().len() ==> tx_valid((#[trigger] p.pool().pending_entries()[i]).1)
            && p.pool().pending_entries()[i].1.first_seen > 0,
{
}

/// The validator's key and its block period.
pub struct ValidatorConfig {
    private_key: PrivateKey,
    block_time_ms: u64,
}

impl ValidatorConfig {
    pub fn new(private_key: PrivateKey, block_time_ms: u64) -> (r: ValidatorConfig)
        ensures
            r.block_time() == block_time_ms,
            r.key() == private_key,
    {
        ValidatorConfig { private_key, block_time_ms }
    }

    pub closed spec fn block_time(&self) -> u64 {
        self.block_time_ms
    }

    pub closed spec fn key(&self) -> PrivateKey {
        self.private_key
    }
}

/// The node that mints blocks from its mempool on a fixed period.
pub struct Validator {
    config: ValidatorConfig,
}

impl Validator {
    pub fn new(config: ValidatorConfig) -> (r: Validator)
        ensures
            r.config() == config,
    {
        Validator { config }
    }

    pub closed spec fn config(&self) -> ValidatorConfig {
        self.config
    }

    /// Milliseconds between two rounds.
    pub fn block_time_ms(&self) -> (r: u64)
        ensures
            r == self.config().block_time(),
    {
        self.config.block_time_ms
    }

    /// One round: seals the pending transactions, ordered by first-seen time,
    /// into a signed child of the tip stamped `timestamp`, adds it to the
    /// chain, clears the pending set, and returns the block for broadcast.
    pub fn create_new_block(&self, node: &mut MessageProcessor, timestamp: u128) -> (r: Result<Block, McError>)
        requires
            old(node).wf(),
        ensures
            final(node).wf(),
            final(node).id() == old(node).id(),
            r is Err ==> unchanged(old(node).chain(), final(node).chain()) && final(node).pool() == old(node).pool(),
            old(node).chain().headers().last().height < u32::MAX && block_effect(
                old(node).chain().state(),
                sort_by_seen(values(old(node).pool().pending_entries())),
            ) is Ok ==> r is Ok,
            r matches Ok(b) ==> ({
                let tip = old(node).chain().headers().last();
                let txs = sort_by_seen(values(old(node).pool().pending_entries()));
                let secret = self.config().key().secret();
                &&& b@.header.version == tip.version
                &&& b@.header.height == tip.height + 1
                &&& b@.header.timestamp == timestamp
                &&& b@.header.prev_block_header_hash matches Some(h) && h@ == header_hash(tip)
                &&& b@.header.data_hash@ == spec_data_hash(txs)
                &&& b@.transactions == txs
                &&& b@.validator == Some(public_key_of(secret))
                &&& b@.signature == Some(ecdsa_signature(secret, enc_header(b@.header)))
                &&& added(old(node).chain(), final(node).chain(), b@)
                &&& final(node).pool().all() == old(node).pool().all()
                &&& final(node).pool().pending_entries().len() == 0
            }),
    {
        proof {
            node.blockchain.lemma_shape();
        }
        let height = node.blockchain.height();
        let current = match node.blockchain.get_header(height) {
            Some(h) => h,
            None => return Err(McError::StorageMiss(height)),
        };
        let pending = node.tx_pool.pending()?;
        if current.height == u32::MAX {
            return Err(McError::InvalidBlock(crate::error::BlockFault::HeightMismatch));
        }
        let mut block = Block::from_prev_header(&current, pending, timestamp);
        block.sign(&self.config.private_key);
        proof {
            let pend = node.tx_pool.pending_entries();
            let txs = block@.transactions;
            lemma_sort_by_seen_permutes(values(pend));
            assert forall|i: int| 0 <= i < txs.len() implies tx_valid(#[trigger] txs[i]) by {
                assert(txs.contains(txs[i]));
                assert(values(pend).contains(txs[i]));
                let j = choose|j: int| 0 <= j < values(pend).len() && values(pend)[j] == txs[i];
                assert(values(pend)[j] == pend[j].1);
            }
            assert(!(exists|i: int| 0 <= i < txs.len() && !tx_valid(#[trigger] txs[i])));
            assert(verify_outcome(block@) is Ok);
            let hs = node.blockchain.headers();
            assert(current == hs[hs.len() - 1]);
            assert(node.blockchain.blocks()[hs.len() - 1].header == hs[hs.len() - 1]);
            assert(current.height == hs.len() - 1);
            assert(block@.header.height == hs.len());
            assert(crate::blockchain::names_parent(block@.header, hs[hs.len() - 1]));
            assert(validate_spec(node.blockchain.headers(), block@) is Ok);
        }
        let copy = block.duplicate();
        node.blockchain.add_block(copy)?;
        node.tx_pool.clear_pending();
        Ok(block)
    }
}

} // verus!
