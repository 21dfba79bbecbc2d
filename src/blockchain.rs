use std::collections::HashMap;
use vstd::prelude::*;
use crate::block::{
    block_ok, enc_block, enc_header, header_hash, tx_views, Block, BlockHeader,
    BlockView,
};
use crate::codec::copy_bytes;
use crate::error::McError;
use crate::state::MemState;
use crate::transaction::{Transaction, TxView};
use crate::vm::{run, BytecodeVM, StackItem, VmView};

verus! {

broadcast use vstd::std_specs::hash::group_hash_axioms;

/// An in-memory block store: encoded blocks by height.
#[derive(Clone, Debug)]
pub struct MemStorage {
    data: HashMap<u32, Vec<u8>>,
}

impl View for MemStorage {
    type V = Map<u32, Seq<u8>>;

    closed spec fn view(&self) -> Map<u32, Seq<u8>> {
        self.data@.map_values(|v: Vec<u8>| v@)
    }
}

/// A store of encoded blocks by height.
pub trait Storage {
    /// What the store holds.
    spec fn contents(&self) -> Map<u32, Seq<u8>>;

    fn get(&self, height: u32) -> (r: Option<Vec<u8>>)
        ensures
            match r {
                Some(v) => self.contents().contains_key(height) && v@ == self.contents()[height],
                None => !self.contents().contains_key(height),
            },
    ;

    fn put(&mut self, height: u32, value: Vec<u8>)
        ensures
            final(self).contents() == old(self).contents().insert(height, value@),
    ;
}

impl MemStorage {
    pub fn new() -> (r: MemStorage)
        ensures
            r@ == Map::<u32, Seq<u8>>::empty(),
    {
        let r = MemStorage { data: HashMap::new() };
        assert(r@ =~= Map::<u32, Seq<u8>>::empty());
        r
    }
}

impl Storage for MemStorage {
    open spec fn contents(&self) -> Map<u32, Seq<u8>> {
        self@
    }

    fn get(&self, height: u32) -> (r: Option<Vec<u8>>) {
        match self.data.get(&height) {
            Some(v) => Some(copy_bytes(v)),
            None => None,
        }
    }

    fn put(&mut self, height: u32, value: Vec<u8>) {
        self.data.insert(height, value);
        assert(self@ =~= old(self)@.insert(height, value@));
    }
}

/// The number of slots of the machine that runs a block's transactions.
pub const STACK_SLOTS: usize = 256;

/// A fresh machine over `state`.
pub open spec fn fresh_machine(state: Map<Seq<u8>, Seq<u8>>) -> VmView {
    VmView { stack: Seq::new(STACK_SLOTS as nat, |_i: int| StackItem::Int(0)), depth: 0, state }
}

/// Runs the transactions' data one after the other on one machine.
pub open spec fn run_txs(m: VmView, txs: Seq<TxView>) -> Result<VmView, McError>
    decreases txs.len(),
{
    if txs.len() == 0 {
        Ok(m)
    } else {
        match run_txs(m, txs.drop_last()) {
            Err(e) => Err(e),
            Ok(m2) => run(m2, txs.last().data, 0),
        }
    }
}

/// The state after a block's transactions run on a fresh machine.
pub open spec fn block_effect(state: Map<Seq<u8>, Seq<u8>>, txs: Seq<TxView>) -> Result<Map<Seq<u8>, Seq<u8>>, McError> {
    match run_txs(fresh_machine(state), txs) {
        Ok(m) => Ok(m.state),
        Err(e) => Err(e),
    }
}

/// Runs a block's transactions on a copy of `state`; the copy is returned
/// only when every transaction ran.
pub fn execute_block(state: &MemState, txs: &[Transaction]) -> (r: Result<MemState, McError>)
    ensures
        block_effect(state@, tx_views(txs@)) == (match r {
            Ok(s) => Ok(s@),
            Err(e) => Err::<Map<Seq<u8>, Seq<u8>>, McError>(e),
        }),
{
    let mut staged = state.duplicate();
    let mut vm: BytecodeVM<256> = BytecodeVM::new();
    let mut i: usize = 0;
    proof {
        assert(tx_views(txs@.take(0)) =~= Seq::<TxView>::empty());
        assert(vm.machine(staged@) == fresh_machine(state@));
    }
    while i < txs.len()
        invariant
            i <= txs@.len(),
            run_txs(fresh_machine(state@), tx_views(txs@.take(i as int))) == Ok::<VmView, McError>(vm.machine(staged@)),
        decreases txs@.len() - i,
    {
        let ghost before = vm.machine(staged@);
        let res = vm.execute(&mut staged, txs[i].data.as_slice());
        proof {
            let pre = tx_views(txs@.take(i + 1));
            assert(pre.drop_last() =~= tx_views(txs@.take(i as int)));
            assert(pre.last() == txs@[i as int]@);
            assert(run_txs(fresh_machine(state@), pre) == run(before, txs@[i as int].data@, 0));
            assert(txs@.take(i + 1) == txs@.take(i as int + 1));
        }
        match res {
            Ok(_) => {},
            Err(e) => {
                proof {
                    assert(tx_views(txs@).take(i as int + 1) =~= tx_views(txs@.take(i as int + 1)));
                    lemma_run_txs_fails(fresh_machine(state@), tx_views(txs@), i as int + 1);
                }
                return Err(e);
            },
        }
        i += 1;
    }
    assert(txs@.take(txs@.len() as int) =~= txs@);
    assert(vm.machine(staged@).state == staged@);
    Ok(staged)
}

/// Once a prefix of the transactions fails, the whole list fails the same way.
proof fn lemma_run_txs_fails(m: VmView, txs: Seq<TxView>, k: int)
    requires
        0 <= k <= txs.len(),
        run_txs(m, txs.take(k)) is Err,
    ensures
        run_txs(m, txs) == run_txs(m, txs.take(k)),
    decreases txs.len(),
{
    if k == txs.len() {
        assert(txs.take(k) =~= txs);
    } else {
        assert(txs.drop_last().take(k) =~= txs.take(k));
        lemma_run_txs_fails(m, txs.drop_last(), k);
    }
}

/// The chain keeper: the header of every block, the encoded blocks, and the
/// state that their transactions built.
pub struct Blockchain<S: Storage = MemStorage> {
    headers: Vec<BlockHeader>,
    blocks: Ghost<Seq<BlockView>>,
    storage: S,
    state: MemState,
}

/// `child` names the hash of `parent` as its parent's.
pub open spec fn names_parent(child: BlockHeader, parent: BlockHeader) -> bool {
    child.prev_block_header_hash matches Some(h) && h@ == header_hash(parent)
}

/// Each header after the first names its parent's hash.
pub open spec fn linked(headers: Seq<BlockHeader>) -> bool {
    forall|i: int| 0 <= i < headers.len() - 1 ==> names_parent(#[trigger] headers[i + 1], headers[i])
}

impl<S: Storage> Blockchain<S> {
    /// The chain's invariant: see `lemma_shape` for what it gives to callers.
    pub closed spec fn wf(&self) -> bool {
        &&& 1 <= self.headers@.len() <= u32::MAX as int + 1
        &&& self.blocks@.len() == self.headers@.len()
        &&& forall|i: int|
            0 <= i < self.headers@.len() ==> {
                &&& (#[trigger] self.blocks@[i]).header == self.headers@[i]
                &&& block_ok(self.blocks@[i])
                &&& self.headers@[i].height == i
                &&& self.storage.contents().contains_key(i as u32)
                &&& self.storage.contents()[i as u32] == enc_block(self.blocks@[i])
            }
        &&& forall|k: u32| #[trigger] self.storage.contents().contains_key(k) ==> k < self.headers@.len()
        &&& linked(self.headers@)
    }

    /// The headers, indexed by height.
    pub closed spec fn headers(&self) -> Seq<BlockHeader> {
        self.headers@
    }

    /// The blocks, indexed by height.
    pub closed spec fn blocks(&self) -> Seq<BlockView> {
        self.blocks@
    }

    /// The state that the blocks' transactions built.
    pub closed spec fn state(&self) -> Map<Seq<u8>, Seq<u8>> {
        self.state@
    }

    /// The chain is non-empty, its headers are its blocks' headers, their
    /// heights are their indices, and each names its parent's hash.
    pub proof fn lemma_shape(&self)
        requires
            self.wf(),
        ensures
            1 <= self.headers().len() <= u32::MAX as int + 1,
            self.blocks().len() == self.headers().len(),
            forall|i: int|
                0 <= i < self.headers().len() ==> (#[trigger] self.blocks()[i]).header == self.headers()[i]
                    && self.headers()[i].height == i && block_ok(self.blocks()[i]),
            linked(self.headers()),
    {
        assert forall|i: int| 0 <= i < self.headers().len() implies (#[trigger] self.blocks()[i]).header
            == self.headers()[i] && self.headers()[i].height == i && block_ok(self.blocks()[i]) by {}
    }

    /// A chain over `storage`, which must be empty, that holds
    /// `genesis_block` alone, stored without validation.
    pub fn with_storage(genesis_block: Block, storage: S) -> (r: Blockchain<S>)
        requires
            genesis_block.header.height == 0,
            storage.contents() == Map::<u32, Seq<u8>>::empty(),
        ensures
            r.wf(),
            r.headers() == seq![genesis_block.header],
            r.blocks() == seq![genesis_block@],
            r.state() == Map::<Seq<u8>, Seq<u8>>::empty(),
    {
        let bytes = genesis_block.encode();
        let mut storage = storage;
        storage.put(0, bytes);
        let mut headers: Vec<BlockHeader> = Vec::new();
        headers.push(genesis_block.header);
        let ghost gb = seq![genesis_block@];
        let r = Blockchain {
            headers,
            blocks: Ghost(gb),
            storage,
            state: MemState::new(),
        };
        assert(r.headers@ =~= seq![genesis_block.header]);
        assert forall|k: u32| #[trigger] r.storage.contents().contains_key(k) implies k < r.headers@.len() by {}
        r
    }

    /// Whether a block of this height is in the chain.
    pub fn has_block(&self, height: u32) -> (r: bool)
        requires
            self.wf(),
        ensures
            r == (height < self.headers().len()),
    {
        self.headers.len() > height as usize
    }

    pub fn get_header(&self, height: u32) -> (r: Option<BlockHeader>)
        requires
            self.wf(),
        ensures
            height < self.headers().len() ==> r == Some(self.headers()[height as int]),
            height >= self.headers().len() ==> r is None,
    {
        if (height as usize) < self.headers.len() {
            Some(self.headers[height as usize])
        } else {
            None
        }
    }

    pub fn len(&self) -> (r: usize)
        requires
            self.wf(),
        ensures
            r == self.headers().len(),
    {
        self.headers.len()
    }

    /// The height of the tip.
    pub fn height(&self) -> (r: u32)
        requires
            self.wf(),
        ensures
            r == self.headers().len() - 1,
    {
        (self.headers.len() - 1) as u32
    }

    /// The header before `height`; for 0, the genesis header.
    pub fn get_prev_header(&self, height: u32) -> (r: Option<BlockHeader>)
        requires
            self.wf(),
        ensures
            ({
                let i = if height == 0 { 0 } else { height - 1 };
                &&& i < self.headers().len() ==> r == Some(self.headers()[i])
                &&& i >= self.headers().len() ==> r is None
            }),
    {
        if height == 0 {
            self.get_header(0)
        } else {
            self.get_header(height - 1)
        }
    }

    /// Reads and decodes the stored block of this height.
    pub fn get_block(&self, height: u32) -> (r: Result<Block, McError>)
        requires
            self.wf(),
        ensures
            height < self.headers().len() ==> (r matches Ok(b) && b@ == self.blocks()[height as int]),
            height >= self.headers().len() ==> r == Err::<Block, McError>(McError::StorageMiss(height)),
    {
        proof {
            if height < self.headers@.len() {
                assert(self.blocks@[height as int].header == self.headers@[height as int]);
            }
        }
        let bytes = match self.storage.get(height) {
            Some(b) => b,
            None => return Err(McError::StorageMiss(height)),
        };
        proof {
            if height < self.headers@.len() {
                assert(self.storage.contents()[height as int as u32] == enc_block(self.blocks@[height as int]));
                assert(block_ok(self.blocks@[height as int]));
            }
        }
        Block::decode(bytes.as_slice())
    }

    /// The blocks of heights `start` up to but not including `end`.
    pub fn get_blocks(&self, start: u32, end: u32) -> (r: Result<Vec<Block>, McError>)
        requires
            self.wf(),
        ensures
            end > self.headers().len() ==> r == Err::<Vec<Block>, McError>(McError::RangeOutOfBounds),
            end <= self.headers().len() ==> (r matches Ok(v) && v@.len() == (if start <= end { end - start } else { 0 })
                && forall|i: int| 0 <= i < v@.len() ==> (#[trigger] v@[i])@ == self.blocks()[start + i]),
    {
        if end as usize > self.headers.len() {
            return Err(McError::RangeOutOfBounds);
        }
        let mut out: Vec<Block> = Vec::new();
        let mut h: u32 = start;
        while h < end
            invariant
                self.wf(),
                end <= self.headers().len(),
                start <= end ==> start <= h <= end,
                start > end ==> h == start,
                out@.len() == h - start,
                forall|i: int| 0 <= i < out@.len() ==> (#[trigger] out@[i])@ == self.blocks()[start + i],
            decreases end - h,
        {
            let b = match self.get_block(h) {
                Ok(b) => b,
                Err(e) => return Err(e),
            };
            out.push(b);
            h += 1;
        }
        Ok(out)
    }

    /// Validates a block, runs its transactions, then appends its header and
    /// stores it. On any failure the chain is unchanged.
    pub fn add_block(&mut self, block: Block) -> (r: Result<(), McError>)
        requires
            old(self).wf(),
        ensures
            final(self).wf(),
            crate::validator::validate_outcome(old(self).headers(), block@, r),
            r is Ok ==> block_effect(old(self).state(), block@.transactions) is Ok,
            r is Ok ==> added(*old(self), *final(self), block@),
            r is Err ==> unchanged(*old(self), *final(self)),
            chain_view(*final(self)) == apply_block(chain_view(*old(self)), block@),
            crate::validator::validate_spec(old(self).headers(), block@) is Ok ==> (match block_effect(
                old(self).state(),
                block@.transactions,
            ) {
                Ok(_) => r is Ok,
                Err(e) => r == Err::<(), McError>(e),
            }),
    {
        crate::validator::validate(self, &block)?;
        let staged = execute_block(&self.state, block.transactions.as_slice())?;
        let bytes = block.encode();
        let height = block.header.height;
        proof {
            assert(height == self.headers@.len());
        }
        self.headers.push(block.header);
        self.storage.put(height, bytes);
        self.state = staged;
        let ghost gb = self.blocks@.push(block@);
        self.blocks = Ghost(gb);
        proof {
            let hs = self.headers@;
            assert(hs.drop_last() =~= old(self).headers@);
            assert forall|i: int| 0 <= i < hs.len() - 1 implies names_parent(#[trigger] hs[i + 1], hs[i]) by {
                if i + 1 < hs.len() - 1 {
                    assert(old(self).headers@[i + 1] == hs[i + 1]);
                }
            }
            assert forall|k: u32| #[trigger] self.storage.contents().contains_key(k) implies k < self.headers@.len() by {
                if k != height {
                    assert(old(self).storage.contents().contains_key(k));
                }
            }
            assert forall|i: int| 0 <= i < self.headers@.len() implies {
                &&& (#[trigger] self.blocks@[i]).header == self.headers@[i]
                &&& block_ok(self.blocks@[i])
                &&& self.headers@[i].height == i
                &&& self.storage.contents().contains_key(i as u32)
                &&& self.storage.contents()[i as u32] == enc_block(self.blocks@[i])
            } by {
                if i < old(self).headers@.len() {
                    assert(old(self).blocks@[i] == self.blocks@[i]);
                    assert((i as u32) != height);
                }
            }
        }
        Ok(())
    }
}

/// `new` is `old` with `b` appended: its header, its block, and the state its
/// transactions built.
pub open spec fn added<S: Storage>(old: Blockchain<S>, new: Blockchain<S>, b: BlockView) -> bool {
    &&& new.headers() == old.headers().push(b.header)
    &&& new.blocks() == old.blocks().push(b)
    &&& block_effect(old.state(), b.transactions) == Ok::<Map<Seq<u8>, Seq<u8>>, McError>(new.state())
}

/// What a chain holds, as mathematical values.
pub struct ChainView {
    pub headers: Seq<BlockHeader>,
    pub blocks: Seq<BlockView>,
    pub state: Map<Seq<u8>, Seq<u8>>,
}

pub open spec fn chain_view<S: Storage>(c: Blockchain<S>) -> ChainView {
    ChainView { headers: c.headers(), blocks: c.blocks(), state: c.state() }
}

/// What `add_block` does: a block that passes the admission rules and whose
/// transactions run is appended with the state they build; any other block
/// leaves the chain as it is.
pub open spec fn apply_block(c: ChainView, b: BlockView) -> ChainView {
    match block_effect(c.state, b.transactions) {
        Ok(state) => if crate::validator::validate_spec(c.headers, b) is Ok {
            ChainView { headers: c.headers.push(b.header), blocks: c.blocks.push(b), state }
        } else {
            c
        },
        Err(_) => c,
    }
}

/// `add_block` applied to each block in order, whatever each one gives.
pub open spec fn apply_blocks(c: ChainView, bs: Seq<BlockView>) -> ChainView
    decreases bs.len(),
{
    if bs.len() == 0 {
        c
    } else {
        apply_block(apply_blocks(c, bs.drop_last()), bs.last())
    }
}

/// `new` holds what `old` holds.
pub open spec fn unchanged<S: Storage>(old: Blockchain<S>, new: Blockchain<S>) -> bool {
    &&& new.headers() == old.headers()
    &&& new.blocks() == old.blocks()
    &&& new.state() == old.state()
}

/// A block that `add_block` accepted is stored under its height with its
/// header intact, and its hash is SHA-256 of its encoded header.
pub proof fn lemma_added_block_is_stored<S: Storage>(old: Blockchain<S>, new: Blockchain<S>, b: BlockView)
    requires
        old.wf(),
        new.wf(),
        added(old, new, b),
    ensures
        b.header.height < new.blocks().len(),
        new.blocks()[b.header.height as int] == b,
        new.blocks()[b.header.height as int].header == b.header,
        header_hash(b.header) == crate::hash::sha256_of(enc_header(b.header)),
{
    new.lemma_shape();
    let i = old.blocks().len() as int;
    assert(new.blocks()[i] == b);
    assert(new.headers()[i].height == i);
}

/// Every header after genesis names the hash of the header before it.
pub proof fn lemma_headers_linked<S: Storage>(c: Blockchain<S>)
    requires
        c.wf(),
    ensures
        forall|i: int| 0 <= i < c.headers().len() - 1 ==> names_parent(#[trigger] c.headers()[i + 1], c.headers()[i]),
{
    c.lemma_shape();
}

} // verus!

verus! {

impl Blockchain<MemStorage> {
    /// A chain over an empty in-memory store that holds `genesis_block` alone,
    /// stored without validation.
    pub fn new(genesis_block: Block) -> (r: Blockchain<MemStorage>)
        requires
            genesis_block.header.height == 0,
        ensures
            r.wf(),
            r.headers() == seq![genesis_block.header],
            r.blocks() == seq![genesis_block@],
            r.state() == Map::<Seq<u8>, Seq<u8>>::empty(),
    {
        Blockchain::with_storage(genesis_block, MemStorage::new())
    }
}

} // verus!
