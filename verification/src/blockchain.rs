//! The chain itself: the ordered blocks, the pool of pending transactions,
//! the rules that make a chain valid, mining, and the record store behind it.

use crate::block::{
    clone_transactions, genesis_block, is_zero_hash, transaction_views, zero_hash, Block,
    BlockView,
};
use crate::clock::now_millis;
use crate::pow::{has_leading_zeros, meets_target};
use crate::storage::{Storage, StorageView};
use crate::transaction::{Transaction, TransactionView};
use vstd::prelude::*;
use vstd::string::StringExecFns;

verus! {

/// The chain, its difficulty, the pending pool and the optional store.
#[derive(Debug)]
pub struct Blockchain {
    pub chain: Vec<Block>,
    pub difficulty: usize,
    pub pending_transactions: Vec<Transaction>,
    pub storage: Option<Storage>,
}

/// The mathematical value of a [`Blockchain`].
pub struct BlockchainView {
    pub chain: Seq<BlockView>,
    pub difficulty: nat,
    pub pending: Seq<TransactionView>,
    pub storage: Option<StorageView>,
}

/// The first rule that a chain breaks, and where.
#[derive(Debug, Clone, Copy, PartialEq, Eq, Structural)]
pub enum ChainFault {
    /// The genesis block's hash is not the hash of its fields.
    GenesisHash,
    /// The block at `index` does not name its predecessor's hash.
    PreviousHash { index: usize },
    /// The hash of the block at `index` is not the hash of its fields.
    Hash { index: usize },
    /// The hash of the block at `index` misses the proof-of-work target.
    ProofOfWork { index: usize },
}

/// The values of a sequence of blocks.
pub open spec fn block_views(blocks: Seq<Block>) -> Seq<BlockView> {
    Seq::new(blocks.len(), |i: int| blocks[i]@)
}

/// The value of an optional store.
pub open spec fn storage_view(storage: Option<Storage>) -> Option<StorageView> {
    match storage {
        Some(store) => Some(store@),
        None => None,
    }
}

impl View for Blockchain {
    type V = BlockchainView;

    open spec fn view(&self) -> BlockchainView {
        BlockchainView {
            chain: block_views(self.chain@),
            difficulty: self.difficulty as nat,
            pending: transaction_views(self.pending_transactions@),
            storage: storage_view(self.storage),
        }
    }
}

/// The rule for a block that follows another: it names the predecessor's
/// hash, its stored hash is the recomputed one, and that hash meets the
/// target. The first of these that fails is the fault.
pub open spec fn link_fault(
    expected_previous: Seq<char>,
    block: BlockView,
    recomputed: Seq<char>,
    index: usize,
    difficulty: nat,
) -> Option<ChainFault> {
    if block.previous_hash != expected_previous {
        Some(ChainFault::PreviousHash { index })
    } else if block.hash != recomputed {
        Some(ChainFault::Hash { index })
    } else if !has_leading_zeros(block.hash, difficulty) {
        Some(ChainFault::ProofOfWork { index })
    } else {
        None
    }
}

/// The fault of the block at position `i` of `chain`, if it has one. The
/// genesis block only has to carry the hash of its fields.
pub open spec fn block_fault(chain: Seq<BlockView>, i: int, difficulty: nat) -> Option<
    ChainFault,
> {
    if i == 0 {
        if chain[0].is_sealed() {
            None
        } else {
            Some(ChainFault::GenesisHash)
        }
    } else {
        link_fault(chain[i - 1].hash, chain[i], chain[i].expected_hash(), i as usize, difficulty)
    }
}

/// Whether no block of `chain` has a fault.
pub open spec fn chain_valid(chain: Seq<BlockView>, difficulty: nat) -> bool {
    forall|i: int| 0 <= i < chain.len() ==> (#[trigger] block_fault(chain, i, difficulty)) is None
}

/// Whether `fault` is the fault of the first faulty block of `chain`.
pub open spec fn is_first_fault(
    chain: Seq<BlockView>,
    difficulty: nat,
    fault: ChainFault,
) -> bool {
    exists|i: int|
        {
            &&& 0 <= i < chain.len()
            &&& #[trigger] block_fault(chain, i, difficulty) == Some(fault)
            &&& forall|j: int| 0 <= j < i ==> (#[trigger] block_fault(chain, j, difficulty)) is None
        }
}

/// Whether a chain received from elsewhere is acceptable: it is not empty,
/// starts with the genesis block, and no later block has a fault.
pub open spec fn candidate_valid(chain: Seq<BlockView>, difficulty: nat) -> bool {
    &&& chain.len() > 0
    &&& chain[0] == genesis_block()
    &&& forall|i: int|
        1 <= i < chain.len() ==> (#[trigger] block_fault(chain, i, difficulty)) is None
}

/// How a chain came to be at startup.
#[derive(Debug, Clone, Copy, PartialEq, Eq, Structural)]
pub enum Startup {
    /// The chain was rebuilt from the store.
    Loaded,
    /// There was no store, or no chain in it: the chain starts at genesis.
    Fresh,
    /// The store named a tip, but the walk back from it failed: what was
    /// stored is abandoned and the chain starts at genesis.
    Recovered,
}

/// Why a chain could not be rebuilt from the store.
#[derive(Debug, Clone, Copy, PartialEq, Eq, Structural)]
pub enum LoadError {
    /// There is no store, a link leads to no record, or the links do not
    /// reach a genesis block.
    ChainBroken,
}

impl LoadError {
    /// The text of the error.
    pub fn message(&self) -> (text: String)
        ensures
            text@ == "Chain broken or empty"@,
    {
        String::from_str("Chain broken or empty")
    }
}

/// One line of a chain summary: a block's index and hash.
#[derive(Debug)]
pub struct BlockSummary {
    pub index: u64,
    pub hash: String,
}

/// What a status report shows of a chain.
#[derive(Debug)]
pub struct ChainSummary {
    pub length: usize,
    pub difficulty: usize,
    pub pending: usize,
    pub blocks: Vec<BlockSummary>,
}

/// The blocks met on the way from the record `from` back to a genesis
/// block, the block `from` first, following at most `fuel` links; `None`
/// where a link leads to no record or `fuel` links do not reach a genesis
/// block.
pub open spec fn walk_back(
    blocks: Map<Seq<char>, BlockView>,
    from: Seq<char>,
    fuel: nat,
) -> Option<Seq<BlockView>>
    decreases fuel,
{
    if fuel == 0 || !blocks.contains_key(from) {
        None
    } else {
        let block = blocks[from];
        if block.previous_hash == zero_hash() {
            Some(seq![block])
        } else {
            match walk_back(blocks, block.previous_hash, (fuel - 1) as nat) {
                Some(rest) => Some(seq![block] + rest),
                None => None,
            }
        }
    }
}

/// The chain that ends in the record `tip`, genesis first. The walk follows
/// at most as many links as the store has records.
pub open spec fn chain_from(store: StorageView, tip: Seq<char>) -> Option<Seq<BlockView>> {
    match walk_back(store.blocks, tip, store.count) {
        Some(walked) => Some(walked.reverse()),
        None => None,
    }
}

/// The chain that a store holds, if it names a tip and the walk back from it
/// succeeds.
pub open spec fn stored_chain(storage: Option<StorageView>) -> Option<Seq<BlockView>> {
    match storage {
        Some(store) => match store.tip {
            Some(tip) => chain_from(store, tip),
            None => None,
        },
        None => None,
    }
}

/// Whether every block after the first names its predecessor's hash.
pub open spec fn linked(chain: Seq<BlockView>) -> bool {
    forall|i: int| 1 <= i < chain.len() ==> (#[trigger] chain[i]).previous_hash == chain[i - 1].hash
}

/// Whether the store, where there is one, holds the chain: rebuilding from
/// it gives the chain in memory.
pub open spec fn in_step(chain: BlockchainView) -> bool {
    chain.storage is Some ==> stored_chain(chain.storage) == Some(chain.chain)
}

/// The store after `block` was stored and made the tip.
pub open spec fn persisted(storage: Option<StorageView>, block: BlockView) -> Option<StorageView> {
    match storage {
        Some(store) => Some(store.with_block(block).with_tip(block.hash)),
        None => None,
    }
}

/// The chain that construction yields for a difficulty and a store.
pub open spec fn opened(difficulty: nat, storage: Option<StorageView>) -> BlockchainView {
    match stored_chain(storage) {
        Some(chain) => BlockchainView { chain, difficulty, pending: Seq::empty(), storage },
        None => BlockchainView {
            chain: seq![genesis_block()],
            difficulty,
            pending: Seq::empty(),
            storage: persisted(storage, genesis_block()),
        },
    }
}

/// How construction comes by its chain, for a given store.
pub open spec fn startup_kind(storage: Option<StorageView>) -> Startup {
    if stored_chain(storage) is Some {
        Startup::Loaded
    } else if storage is Some && storage->0.tip is Some {
        Startup::Recovered
    } else {
        Startup::Fresh
    }
}

/// `walked` in front of what a further walk yields.
spec fn continue_walk(walked: Seq<BlockView>, further: Option<Seq<BlockView>>) -> Option<
    Seq<BlockView>,
> {
    match further {
        Some(rest) => Some(walked + rest),
        None => None,
    }
}

/// The blocks of `blocks` in the opposite order.
pub fn reversed(blocks: Vec<Block>) -> (out: Vec<Block>)
    ensures
        block_views(out@) == block_views(blocks@).reverse(),
{
    let mut work = blocks;
    let mut out: Vec<Block> = Vec::new();
    while work.len() > 0
        invariant
            work@.len() + out@.len() == blocks@.len(),
            forall|k: int| 0 <= k < work@.len() ==> work@[k] == blocks@[k],
            forall|k: int| 0 <= k < out@.len() ==> out@[k] == blocks@[blocks@.len() - 1 - k],
        decreases work@.len(),
    {
        match work.pop() {
            Some(block) => {
                out.push(block);
            },
            None => {},
        }
    }
    proof {
        assert(block_views(out@) =~= block_views(blocks@).reverse());
    }
    out
}

/// Rebuilds the chain that ends in the record `tip` by walking the
/// previous-hash links back to a genesis block. The walk gives up after as
/// many links as the store has records, so it ends on any store.
pub fn load_chain(store: &Storage, tip: &String) -> (loaded: Option<Vec<Block>>)
    ensures
        loaded is Some == chain_from(store@, tip@) is Some,
        loaded is Some ==> block_views(loaded->0@) == chain_from(store@, tip@)->0,
        loaded is Some ==> {
            let chain = block_views(loaded->0@);
            &&& chain.len() > 0
            &&& chain[0].previous_hash == zero_hash()
            &&& chain.last().hash == tip@
            &&& linked(chain)
        },
{
    proof {
        store.lemma_keyed_by_hash();
        lemma_rebuilt_chain_linked(store@, tip@);
    }
    let limit = store.len();
    let mut collected: Vec<Block> = Vec::new();
    let mut current: String = tip.clone();
    let mut steps: usize = 0;
    let mut complete = false;
    while steps < limit && !complete
        invariant
            steps <= limit == store@.count,
            !complete ==> walk_back(store@.blocks, tip@, store@.count) == continue_walk(
                block_views(collected@),
                walk_back(store@.blocks, current@, (limit - steps) as nat),
            ),
            complete ==> walk_back(store@.blocks, tip@, store@.count) == Some(
                block_views(collected@),
            ),
        decreases limit - steps + (if complete { 0int } else { 1int }),
    {
        let ghost before = block_views(collected@);
        match store.get_block(&current) {
            None => {
                return None;
            },
            Some(block) => {
                let at_genesis = is_zero_hash(&block.previous_hash);
                current = block.previous_hash.clone();
                proof {
                    assert(block_views(collected@.push(block)) =~= before + seq![block@]);
                    if !at_genesis {
                        let further = walk_back(
                            store@.blocks,
                            block@.previous_hash,
                            (limit - steps - 1) as nat,
                        );
                        if further is Some {
                            assert(before + (seq![block@] + further->0) =~= (before + seq![block@])
                                + further->0);
                        }
                    }
                }
                collected.push(block);
                steps = steps + 1;
                complete = at_genesis;
            },
        }
    }
    if complete {
        Some(reversed(collected))
    } else {
        None
    }
}

/// The unmined block that mining starts from: the next index, the tip's hash
/// as previous hash, the whole pending pool, nonce 0.
pub open spec fn candidate_block(chain: BlockchainView, timestamp: u128) -> BlockView {
    (BlockView {
        index: chain.chain.len() as u64,
        timestamp,
        previous_hash: chain.chain.last().hash,
        hash: Seq::empty(),
        transactions: chain.pending,
        nonce: 0,
    }).at_nonce(0)
}

/// Whether `nonce` is the least nonce that gives `candidate` a hash meeting
/// `difficulty`.
pub open spec fn least_solution(candidate: BlockView, nonce: u64, difficulty: nat) -> bool {
    &&& candidate.solves(nonce, difficulty)
    &&& forall|n: u64| n < nonce ==> !#[trigger] candidate.solves(n, difficulty)
}

/// What mining the pending pool at `timestamp` does to a chain. Where a
/// block was mined, it is the candidate at the least nonce that meets the
/// difficulty; it is appended and stored, and the pool is emptied. Where
/// none was, no nonce meets the difficulty and nothing changes.
pub open spec fn mining_outcome(
    before: BlockchainView,
    after: BlockchainView,
    timestamp: u128,
    mined: bool,
) -> bool {
    let candidate = candidate_block(before, timestamp);
    if mined {
        let block = candidate.at_nonce(after.chain.last().nonce);
        &&& least_solution(candidate, block.nonce, before.difficulty)
        &&& after == (BlockchainView {
            chain: before.chain.push(block),
            difficulty: before.difficulty,
            pending: Seq::empty(),
            storage: persisted(before.storage, block),
        })
    } else {
        &&& after == before
        &&& forall|n: u64| !#[trigger] candidate.solves(n, before.difficulty)
    }
}

/// Whether `block` may be appended to `chain`: the chain is not empty, the
/// block carries the next index, names the tip's hash, carries the hash of
/// its fields, and meets the difficulty.
pub open spec fn extends(chain: BlockchainView, block: BlockView) -> bool {
    &&& chain.chain.len() > 0
    &&& block.index == chain.chain.len()
    &&& link_fault(
        chain.chain.last().hash,
        block,
        block.expected_hash(),
        chain.chain.len() as usize,
        chain.difficulty,
    ) is None
}

/// Whether `candidate` replaces `chain` under the fork-choice rule: it is an
/// acceptable chain and strictly longer. A chain of equal length never
/// replaces the current one.
pub open spec fn supersedes(chain: BlockchainView, candidate: Seq<BlockView>) -> bool {
    &&& candidate_valid(candidate, chain.difficulty)
    &&& candidate.len() > chain.chain.len()
}

/// The store after each block of `chain` was stored and made the tip, in
/// order.
pub open spec fn persisted_all(storage: Option<StorageView>, chain: Seq<BlockView>) -> Option<
    StorageView,
>
    decreases chain.len(),
{
    if chain.len() == 0 {
        storage
    } else {
        persisted(persisted_all(storage, chain.drop_last()), chain.last())
    }
}

/// `chain` with the previous hash of the block at `i` replaced by `forged`;
/// every other field, the stored hash too, stays.
pub open spec fn forge_previous_hash(chain: Seq<BlockView>, i: int, forged: Seq<char>) -> Seq<
    BlockView,
> {
    chain.update(i, BlockView { previous_hash: forged, ..chain[i] })
}

/// Copies a list of blocks.
pub fn clone_blocks(blocks: &[Block]) -> (copy: Vec<Block>)
    ensures
        block_views(copy@) == block_views(blocks@),
{
    let mut copy: Vec<Block> = Vec::new();
    let mut i: usize = 0;
    while i < blocks.len()
        invariant
            i <= blocks@.len(),
            copy@.len() == i,
            forall|j: int| 0 <= j < i ==> copy@[j]@ == blocks@[j]@,
        decreases blocks@.len() - i,
    {
        copy.push(blocks[i].clone());
        i = i + 1;
    }
    proof {
        assert(block_views(copy@) =~= block_views(blocks@));
    }
    copy
}

/// Applies the rule for a block that follows another, given the hash that
/// was recomputed from the block's fields.
pub fn check_link(
    expected_previous: &String,
    block: &Block,
    recomputed: &String,
    index: usize,
    difficulty: usize,
) -> (fault: Option<ChainFault>)
    ensures
        fault == link_fault(expected_previous@, block@, recomputed@, index, difficulty as nat),
{
    if block.previous_hash != *expected_previous {
        Some(ChainFault::PreviousHash { index })
    } else if block.hash != *recomputed {
        Some(ChainFault::Hash { index })
    } else if !meets_target(block.hash.as_str(), difficulty) {
        Some(ChainFault::ProofOfWork { index })
    } else {
        None
    }
}

/// The fault of the block at position `i` of `blocks`, if it has one.
pub fn check_block(blocks: &[Block], i: usize, difficulty: usize) -> (fault: Option<ChainFault>)
    requires
        i < blocks@.len(),
    ensures
        fault == block_fault(block_views(blocks@), i as int, difficulty as nat),
{
    let block = &blocks[i];
    let recomputed = block.calculate_hash();
    if i == 0 {
        if block.hash != recomputed {
            Some(ChainFault::GenesisHash)
        } else {
            None
        }
    } else {
        check_link(&blocks[i - 1].hash, block, &recomputed, i, difficulty)
    }
}

impl Blockchain {
    /// Builds the chain for `difficulty` on `storage`. Where the store names a
    /// tip and the walk back from it reaches a genesis block, the chain is the
    /// one that was stored. In every other case the chain starts at a fresh
    /// genesis block, which is stored and made the tip where there is a store.
    pub fn new(difficulty: usize, storage: Option<Storage>) -> (chain: Blockchain)
        ensures
            chain@ == opened(difficulty as nat, storage_view(storage)),
            chain@.chain.len() > 0,
            in_step(chain@),
            stored_chain(storage_view(storage)) is None ==> chain_valid(
                chain@.chain,
                difficulty as nat,
            ),
    {
        let (chain, _) = Blockchain::open(difficulty, storage);
        chain
    }

    /// Builds the chain as [`Blockchain::new`] does, and tells how it came
    /// by it.
    pub fn open(difficulty: usize, storage: Option<Storage>) -> (outcome: (Blockchain, Startup))
        ensures
            outcome.0@ == opened(difficulty as nat, storage_view(storage)),
            outcome.1 == startup_kind(storage_view(storage)),
            outcome.0@.chain.len() > 0,
            in_step(outcome.0@),
            stored_chain(storage_view(storage)) is None ==> chain_valid(
                outcome.0@.chain,
                difficulty as nat,
            ),
    {
        proof {
            lemma_opened_not_empty(difficulty as nat, storage_view(storage));
            lemma_genesis_chain_valid(difficulty as nat);
        }
        let mut chain = Blockchain {
            chain: Vec::new(),
            difficulty,
            pending_transactions: Vec::new(),
            storage,
        };
        proof {
            assert(chain@.chain =~= Seq::empty());
            assert(chain@.pending =~= Seq::empty());
        }
        let tip = match &chain.storage {
            Some(store) => store.get_last_hash(),
            None => None,
        };
        proof {
            if let Some(store) = storage_view(storage) {
                lemma_stored_genesis_is_rebuilt(store, genesis_block());
            }
        }
        match tip {
            Some(last_hash) => {
                match chain.load_chain_from_db(last_hash) {
                    Ok(_) => (chain, Startup::Loaded),
                    Err(_) => {
                        chain.create_genesis_block();
                        proof {
                            assert(chain@.chain =~= seq![genesis_block()]);
                        }
                        (chain, Startup::Recovered)
                    },
                }
            },
            None => {
                chain.create_genesis_block();
                proof {
                    assert(chain@.chain =~= seq![genesis_block()]);
                }
                (chain, Startup::Fresh)
            },
        }
    }

    /// Replaces the chain by the one that the store holds up to the record
    /// `last_hash`. Where there is no store or the walk back fails, nothing
    /// changes and the error says so.
    pub fn load_chain_from_db(&mut self, last_hash: String) -> (loaded: Result<(), LoadError>)
        ensures
            old(self)@.storage is Some && chain_from(old(self)@.storage->0, last_hash@) is Some
                ==> loaded is Ok && final(self)@ == (BlockchainView {
                chain: chain_from(old(self)@.storage->0, last_hash@)->0,
                ..old(self)@
            }),
            !(old(self)@.storage is Some && chain_from(old(self)@.storage->0, last_hash@) is Some)
                ==> loaded == Err::<(), LoadError>(LoadError::ChainBroken) && final(self)@ == old(
                self,
            )@,
    {
        let loaded = match &self.storage {
            Some(store) => load_chain(store, &last_hash),
            None => None,
        };
        match loaded {
            Some(blocks) => {
                self.chain = blocks;
                Ok(())
            },
            None => Err(LoadError::ChainBroken),
        }
    }

    /// Stores `block` and makes it the tip, where there is a store.
    pub fn persist(&mut self, block: &Block)
        ensures
            final(self)@ == (BlockchainView {
                storage: persisted(old(self)@.storage, block@),
                ..old(self)@
            }),
    {
        match &mut self.storage {
            Some(store) => {
                store.insert_block(block);
                store.save_last_hash(&block.hash);
            },
            None => {},
        }
    }

    /// Appends the genesis block, and stores it as the tip where there is a
    /// store.
    pub fn create_genesis_block(&mut self)
        ensures
            final(self)@ == (BlockchainView {
                chain: old(self)@.chain.push(genesis_block()),
                storage: persisted(old(self)@.storage, genesis_block()),
                ..old(self)@
            }),
    {
        let genesis = Block::genesis();
        self.persist(&genesis);
        self.chain.push(genesis);
        proof {
            assert(self@.chain =~= old(self)@.chain.push(genesis_block()));
        }
    }

    /// The most recent block.
    pub fn last_block(&self) -> (block: &Block)
        requires
            self@.chain.len() > 0,
        ensures
            block@ == self@.chain.last(),
    {
        &self.chain[self.chain.len() - 1]
    }

    /// Appends `transaction` to the pending pool. Nothing is validated and
    /// nothing is deduplicated.
    pub fn add_transaction(&mut self, transaction: Transaction)
        ensures
            final(self)@ == (BlockchainView {
                pending: old(self)@.pending.push(transaction@),
                ..old(self)@
            }),
    {
        self.pending_transactions.push(transaction);
        proof {
            assert(self@.pending =~= old(self)@.pending.push(transaction@));
        }
    }

    /// The first fault of the chain, walking from the genesis block on, or
    /// `None` where the chain is valid.
    pub fn find_fault(&self) -> (fault: Option<ChainFault>)
        ensures
            fault is None <==> chain_valid(self@.chain, self@.difficulty),
            fault is Some ==> is_first_fault(self@.chain, self@.difficulty, fault->0),
    {
        let mut i: usize = 0;
        while i < self.chain.len()
            invariant
                i <= self.chain@.len(),
                forall|j: int|
                    0 <= j < i ==> (#[trigger] block_fault(
                        self@.chain,
                        j,
                        self@.difficulty,
                    )) is None,
            decreases self.chain@.len() - i,
        {
            let fault = check_block(self.chain.as_slice(), i, self.difficulty);
            if fault.is_some() {
                return fault;
            }
            i = i + 1;
        }
        None
    }

    /// Whether the chain is valid: the genesis block carries the hash of its
    /// fields, and every later block names its predecessor's hash, carries
    /// the hash of its fields, and meets the proof-of-work target.
    pub fn is_valid(&self) -> (ok: bool)
        ensures
            ok == chain_valid(self@.chain, self@.difficulty),
    {
        self.find_fault().is_none()
    }

    /// Whether a chain received from elsewhere is acceptable at this chain's
    /// difficulty: not empty, starting with the genesis block, and without a
    /// fault in any later block.
    pub fn is_valid_chain(&self, chain: &[Block]) -> (ok: bool)
        ensures
            ok == candidate_valid(block_views(chain@), self@.difficulty),
    {
        if chain.len() == 0 {
            return false;
        }
        if chain[0] != Block::genesis() {
            return false;
        }
        let mut i: usize = 1;
        while i < chain.len()
            invariant
                1 <= i <= chain@.len(),
                forall|j: int|
                    1 <= j < i ==> (#[trigger] block_fault(
                        block_views(chain@),
                        j,
                        self@.difficulty,
                    )) is None,
            decreases chain@.len() - i,
        {
            let fault = check_block(chain, i, self.difficulty);
            if fault.is_some() {
                return false;
            }
            i = i + 1;
        }
        true
    }
    /// Mines the pending pool into a new block stamped with the current
    /// time. The block takes the next index and the tip's hash; on success it
    /// is stored, appended, and the pool is emptied. Returns whether a block
    /// was mined; it is not only where no nonce meets the difficulty, and
    /// then nothing changes. The miner's address earns no reward.
    pub fn mine_pending_transactions(&mut self, _miner_address: String) -> (mined: bool)
        requires
            old(self)@.chain.len() > 0,
        ensures
            exists|timestamp: u128| mining_outcome(old(self)@, final(self)@, timestamp, mined),
            mined ==> final(self)@.chain.len() == old(self)@.chain.len() + 1,
            mined ==> final(self)@.pending.len() == 0,
            chain_valid(old(self)@.chain, old(self)@.difficulty) ==> chain_valid(
                final(self)@.chain,
                final(self)@.difficulty,
            ),
    {
        let timestamp = now_millis();
        let mined = self.mine_pending_at(timestamp);
        proof {
            lemma_mining_keeps_validity(old(self)@, self@, timestamp, mined);
        }
        mined
    }

    /// The unmined block that would follow the tip: the next index, the
    /// tip's hash as previous hash, a copy of the whole pending pool, nonce 0.
    pub fn next_block(&self, timestamp: u128) -> (block: Block)
        requires
            self@.chain.len() > 0,
        ensures
            block@ == candidate_block(self@, timestamp),
    {
        let index = self.chain.len() as u64;
        let previous_hash = self.chain[self.chain.len() - 1].hash.clone();
        let transactions = clone_transactions(&self.pending_transactions);
        Block::with_timestamp(index, timestamp, previous_hash, transactions)
    }

    /// Mines the pending pool into a new block stamped with `timestamp`.
    pub fn mine_pending_at(&mut self, timestamp: u128) -> (mined: bool)
        requires
            old(self)@.chain.len() > 0,
        ensures
            mining_outcome(old(self)@, final(self)@, timestamp, mined),
    {
        let mut block = self.next_block(timestamp);
        let ghost candidate = block@;
        let found = block.mine(self.difficulty);
        proof {
            assert(block@ == candidate.at_nonce(block@.nonce));
        }
        if !found {
            return false;
        }
        self.persist(&block);
        self.chain.push(block);
        self.pending_transactions = Vec::new();
        proof {
            assert(self@.chain =~= old(self)@.chain.push(block@));
            assert(self@.pending =~= Seq::empty());
        }
        true
    }

    /// Appends a block that was mined elsewhere, where it extends the chain:
    /// it carries the next index, names the tip's hash, carries the hash of
    /// its fields and meets the difficulty. It is then stored as the tip.
    /// Any other block is discarded and nothing changes.
    pub fn accept_block(&mut self, block: Block) -> (accepted: bool)
        ensures
            accepted == extends(old(self)@, block@),
            accepted ==> final(self)@ == (BlockchainView {
                chain: old(self)@.chain.push(block@),
                storage: persisted(old(self)@.storage, block@),
                ..old(self)@
            }),
            !accepted ==> final(self)@ == old(self)@,
            chain_valid(old(self)@.chain, old(self)@.difficulty) ==> chain_valid(
                final(self)@.chain,
                final(self)@.difficulty,
            ),
    {
        let len = self.chain.len();
        if len == 0 {
            return false;
        }
        if block.index != len as u64 {
            return false;
        }
        let recomputed = block.calculate_hash();
        let fault = check_link(
            &self.chain[len - 1].hash,
            &block,
            &recomputed,
            len,
            self.difficulty,
        );
        if fault.is_some() {
            return false;
        }
        self.persist(&block);
        self.chain.push(block);
        proof {
            assert(self@.chain =~= old(self)@.chain.push(block@));
            if chain_valid(old(self)@.chain, old(self)@.difficulty) {
                lemma_extension_valid(old(self)@.chain, block@, old(self)@.difficulty);
            }
        }
        true
    }

    /// The fork-choice rule: `candidate` replaces the chain where it is an
    /// acceptable chain and strictly longer than the current one; its blocks
    /// are then stored, the last one as the tip. In every other case,
    /// equal length included, the current chain stays.
    pub fn replace_chain(&mut self, candidate: Vec<Block>) -> (replaced: bool)
        ensures
            replaced == supersedes(old(self)@, block_views(candidate@)),
            replaced ==> final(self)@ == (BlockchainView {
                chain: block_views(candidate@),
                storage: persisted_all(old(self)@.storage, block_views(candidate@)),
                ..old(self)@
            }),
            !replaced ==> final(self)@ == old(self)@,
            replaced ==> chain_valid(final(self)@.chain, final(self)@.difficulty),
    {
        if candidate.len() <= self.chain.len() {
            return false;
        }
        if !self.is_valid_chain(candidate.as_slice()) {
            return false;
        }
        let mut i: usize = 0;
        while i < candidate.len()
            invariant
                i <= candidate@.len(),
                self@ == (BlockchainView {
                    storage: persisted_all(
                        old(self)@.storage,
                        block_views(candidate@).take(i as int),
                    ),
                    ..old(self)@
                }),
            decreases candidate@.len() - i,
        {
            self.persist(&candidate[i]);
            proof {
                let all = block_views(candidate@);
                assert(all.take(i + 1).drop_last() == all.take(i as int));
                assert(all.take(i + 1).last() == candidate@[i as int]@);
            }
            i = i + 1;
        }
        proof {
            assert(block_views(candidate@).take(i as int) == block_views(candidate@));
            lemma_candidate_is_valid(block_views(candidate@), self@.difficulty);
        }
        self.chain = candidate;
        true
    }
    /// What a status report shows: the length, the difficulty, the size of
    /// the pending pool, and each block's index and hash in chain order.
    pub fn summary(&self) -> (summary: ChainSummary)
        ensures
            summary.length == self@.chain.len(),
            summary.difficulty == self@.difficulty,
            summary.pending == self@.pending.len(),
            summary.blocks@.len() == self@.chain.len(),
            forall|i: int|
                0 <= i < self@.chain.len() ==> {
                    &&& (#[trigger] summary.blocks@[i]).index == self@.chain[i].index
                    &&& summary.blocks@[i].hash@ == self@.chain[i].hash
                },
    {
        let mut blocks: Vec<BlockSummary> = Vec::new();
        let mut i: usize = 0;
        while i < self.chain.len()
            invariant
                i <= self.chain@.len(),
                blocks@.len() == i,
                forall|j: int|
                    0 <= j < i ==> {
                        &&& (#[trigger] blocks@[j]).index == self@.chain[j].index
                        &&& blocks@[j].hash@ == self@.chain[j].hash
                    },
            decreases self.chain@.len() - i,
        {
            blocks.push(
                BlockSummary { index: self.chain[i].index, hash: self.chain[i].hash.clone() },
            );
            i = i + 1;
        }
        ChainSummary {
            length: self.chain.len(),
            difficulty: self.difficulty,
            pending: self.pending_transactions.len(),
            blocks,
        }
    }
}

impl Clone for Blockchain {
    fn clone(&self) -> (copy: Blockchain)
        ensures
            copy@ == self@,
    {
        Blockchain {
            chain: clone_blocks(self.chain.as_slice()),
            difficulty: self.difficulty,
            pending_transactions: clone_transactions(&self.pending_transactions),
            storage: match &self.storage {
                Some(store) => Some(store.clone()),
                None => None,
            },
        }
    }
}

/// Mining keeps a valid chain valid: where the chain before was valid and
/// not empty, the chain after mining is valid, whether or not a block was
/// mined.
pub proof fn lemma_mining_keeps_validity(
    before: BlockchainView,
    after: BlockchainView,
    timestamp: u128,
    mined: bool,
)
    requires
        mining_outcome(before, after, timestamp, mined),
    ensures
        chain_valid(before.chain, before.difficulty) ==> chain_valid(
            after.chain,
            after.difficulty,
        ),
        mined ==> after.chain.len() == before.chain.len() + 1 && after.pending.len() == 0,
{
    if mined && chain_valid(before.chain, before.difficulty) {
        let candidate = candidate_block(before, timestamp);
        let block = candidate.at_nonce(after.chain.last().nonce);
        lemma_extension_valid(before.chain, block, before.difficulty);
    }
}

/// A valid chain stays valid when a block is appended that names the last
/// block's hash, carries the hash of its fields and meets the difficulty.
pub proof fn lemma_extension_valid(chain: Seq<BlockView>, block: BlockView, difficulty: nat)
    requires
        chain_valid(chain, difficulty),
        block.is_sealed(),
        chain.len() > 0 ==> block.previous_hash == chain.last().hash && has_leading_zeros(
            block.hash,
            difficulty,
        ),
    ensures
        chain_valid(chain.push(block), difficulty),
{
    let longer = chain.push(block);
    assert forall|i: int| 0 <= i < longer.len() implies (#[trigger] block_fault(
        longer,
        i,
        difficulty,
    )) is None by {
        if i < chain.len() {
            assert(block_fault(chain, i, difficulty) is None);
            assert(longer[i] == chain[i]);
            if i > 0 {
                assert(longer[i - 1] == chain[i - 1]);
            }
        }
    }
}

/// A chain that starts at a fresh genesis block is valid at any difficulty.
pub proof fn lemma_genesis_chain_valid(difficulty: nat)
    ensures
        chain_valid(seq![genesis_block()], difficulty),
        chain_valid(opened(difficulty, None).chain, difficulty),
{
    let chain = seq![genesis_block()];
    assert forall|i: int| 0 <= i < chain.len() implies (#[trigger] block_fault(
        chain,
        i,
        difficulty,
    )) is None by {
        assert(chain[0].is_sealed());
    }
}

/// An acceptable candidate is a valid chain.
pub proof fn lemma_candidate_is_valid(chain: Seq<BlockView>, difficulty: nat)
    requires
        candidate_valid(chain, difficulty),
    ensures
        chain_valid(chain, difficulty),
{
    assert forall|i: int| 0 <= i < chain.len() implies (#[trigger] block_fault(
        chain,
        i,
        difficulty,
    )) is None by {
        if i == 0 {
            assert(genesis_block().is_sealed());
        }
    }
}

/// Neither an empty sequence nor one whose first block is not the genesis
/// block is an acceptable candidate.
pub proof fn lemma_candidate_starts_at_genesis(chain: Seq<BlockView>, difficulty: nat)
    ensures
        chain.len() == 0 ==> !candidate_valid(chain, difficulty),
        chain.len() > 0 && chain[0] != genesis_block() ==> !candidate_valid(chain, difficulty),
{
}

/// A forged previous hash is found out. Take a valid chain and give the
/// block at `i` another previous hash, leaving its stored hash as it was.
/// For a block after the genesis block the chain is then invalid. For the
/// genesis block it is invalid unless the forged block hashes to the stored
/// hash all the same.
pub proof fn lemma_forged_previous_hash(
    chain: Seq<BlockView>,
    difficulty: nat,
    i: int,
    forged: Seq<char>,
)
    requires
        chain_valid(chain, difficulty),
        0 <= i < chain.len(),
        forged != chain[i].previous_hash,
    ensures
        i > 0 ==> !chain_valid(forge_previous_hash(chain, i, forged), difficulty),
        i == 0 ==> (chain_valid(forge_previous_hash(chain, i, forged), difficulty)
            <==> forge_previous_hash(chain, i, forged)[0].expected_hash() == chain[0].hash),
{
    let forgery = forge_previous_hash(chain, i, forged);
    if i > 0 {
        assert(block_fault(chain, i, difficulty) is None);
        assert(block_fault(forgery, i, difficulty) is Some);
    } else {
        if forgery[0].expected_hash() == chain[0].hash {
            assert forall|j: int| 0 <= j < forgery.len() implies (#[trigger] block_fault(
                forgery,
                j,
                difficulty,
            )) is None by {
                assert(block_fault(chain, j, difficulty) is None);
            }
        } else {
            assert(block_fault(forgery, 0, difficulty) is Some);
        }
    }
}

/// Construction never yields an empty chain.
pub proof fn lemma_opened_not_empty(difficulty: nat, storage: Option<StorageView>)
    ensures
        opened(difficulty, storage).chain.len() > 0,
{
    if let Some(store) = storage {
        if let Some(tip) = store.tip {
            lemma_walk_not_empty(store.blocks, tip, store.count);
        }
    }
}

/// A walk that succeeds meets at least one block.
pub proof fn lemma_walk_not_empty(blocks: Map<Seq<char>, BlockView>, from: Seq<char>, fuel: nat)
    ensures
        walk_back(blocks, from, fuel) matches Some(walked) ==> walked.len() > 0,
{
}

/// A chain rebuilt from a store hangs together: it is not empty, its first
/// block is a genesis block, its last block is the one the walk set out
/// from, and every block after the first names its predecessor's hash.
pub proof fn lemma_rebuilt_chain_linked(store: StorageView, tip: Seq<char>)
    requires
        store.keyed_by_hash(),
    ensures
        chain_from(store, tip) matches Some(chain) ==> {
            &&& chain.len() > 0
            &&& chain[0].previous_hash == zero_hash()
            &&& chain.last().hash == tip
            &&& linked(chain)
        },
{
    lemma_walk_linked(store.blocks, tip, store.count);
    if let Some(walked) = walk_back(store.blocks, tip, store.count) {
        let chain = walked.reverse();
        assert forall|i: int| 1 <= i < chain.len() implies (#[trigger] chain[i]).previous_hash
            == chain[i - 1].hash by {
            let k = chain.len() - 1 - i;
            assert(chain[i] == walked[k]);
            assert(chain[i - 1] == walked[k + 1]);
        }
    }
}

/// What a walk meets hangs together: the first block met is the one stored
/// under the starting hash, each block names the hash of the block met next,
/// and the last block met is a genesis block.
pub proof fn lemma_walk_linked(blocks: Map<Seq<char>, BlockView>, from: Seq<char>, fuel: nat)
    requires
        forall|key: Seq<char>| blocks.contains_key(key) ==> (#[trigger] blocks[key]).hash == key,
    ensures
        walk_back(blocks, from, fuel) matches Some(walked) ==> {
            &&& walked.len() > 0
            &&& walked[0].hash == from
            &&& walked.last().previous_hash == zero_hash()
            &&& forall|i: int|
                0 <= i < walked.len() - 1 ==> (#[trigger] walked[i]).previous_hash == walked[i
                    + 1].hash
        },
    decreases fuel,
{
    if fuel > 0 && blocks.contains_key(from) {
        let block = blocks[from];
        if block.previous_hash != zero_hash() {
            lemma_walk_linked(blocks, block.previous_hash, (fuel - 1) as nat);
            if let Some(rest) = walk_back(blocks, block.previous_hash, (fuel - 1) as nat) {
                let walked = seq![block] + rest;
                assert forall|i: int| 0 <= i < walked.len() - 1 implies (
                #[trigger] walked[i]).previous_hash == walked[i + 1].hash by {
                    if i > 0 {
                        assert(walked[i] == rest[i - 1]);
                        assert(walked[i + 1] == rest[i]);
                    } else {
                        assert(walked[1] == rest[0]);
                    }
                }
                assert(walked.last() == rest.last());
            }
        }
    }
}

/// Storing a genesis block as the tip makes it the stored chain, whatever
/// the store held before.
pub proof fn lemma_stored_genesis_is_rebuilt(store: StorageView, genesis: BlockView)
    requires
        store.wf(),
        genesis.previous_hash == zero_hash(),
    ensures
        stored_chain(persisted(Some(store), genesis)) == Some(seq![genesis]),
{
    let after = store.with_block(genesis).with_tip(genesis.hash);
    assert(after.count >= 1) by {
        if store.blocks.contains_key(genesis.hash) {
            assert(store.blocks.dom().contains(genesis.hash));
        }
    }
    assert(after.blocks[genesis.hash] == genesis);
    assert(walk_back(after.blocks, genesis.hash, after.count) == Some(seq![genesis]));
    assert(seq![genesis].reverse() =~= seq![genesis]);
}

/// What is stored is what is rebuilt. Take a store whose stored chain is
/// `chain`, and store a block as the new tip that names the old tip, under
/// a hash that the store does not hold yet. Then the stored chain is `chain`
/// with that block appended. The old tip must not be 64 zeros, for a block
/// that names it would pass for a genesis block.
pub proof fn lemma_stored_block_is_rebuilt(
    store: StorageView,
    chain: Seq<BlockView>,
    block: BlockView,
)
    requires
        stored_chain(Some(store)) == Some(chain),
        store.tip == Some(block.previous_hash),
        block.previous_hash != zero_hash(),
        !store.blocks.contains_key(block.hash),
    ensures
        stored_chain(persisted(Some(store), block)) == Some(chain.push(block)),
{
    let tip = block.previous_hash;
    let after = store.with_block(block).with_tip(block.hash);
    let walked = walk_back(store.blocks, tip, store.count)->0;
    lemma_walk_ignores_new_record(store.blocks, block.hash, block, tip, store.count);
    assert(after.count == store.count + 1);
    assert(after.blocks[block.hash] == block);
    assert(walk_back(after.blocks, block.hash, after.count) == Some(seq![block] + walked));
    assert((seq![block] + walked).reverse() =~= walked.reverse().push(block));
}

/// A walk that succeeds is not changed by a record stored under a new key.
pub proof fn lemma_walk_ignores_new_record(
    blocks: Map<Seq<char>, BlockView>,
    key: Seq<char>,
    record: BlockView,
    from: Seq<char>,
    fuel: nat,
)
    requires
        !blocks.contains_key(key),
        walk_back(blocks, from, fuel) is Some,
    ensures
        walk_back(blocks.insert(key, record), from, fuel) == walk_back(blocks, from, fuel),
    decreases fuel,
{
    let block = blocks[from];
    assert(blocks.insert(key, record)[from] == block);
    if block.previous_hash != zero_hash() {
        lemma_walk_ignores_new_record(
            blocks,
            key,
            record,
            block.previous_hash,
            (fuel - 1) as nat,
        );
    }
}

/// Mining keeps store and chain in step. Where the store held the chain
/// before, it holds the chain after, provided that the mined block's hash is
/// new to the store and the old tip's hash is not 64 zeros.
pub proof fn lemma_mining_keeps_in_step(
    before: BlockchainView,
    after: BlockchainView,
    timestamp: u128,
    mined: bool,
)
    requires
        mining_outcome(before, after, timestamp, mined),
        before.chain.len() > 0,
        in_step(before),
        before.storage matches Some(store) ==> store.wf(),
        mined ==> before.chain.last().hash != zero_hash(),
        mined ==> (before.storage matches Some(store) ==> !store.blocks.contains_key(
            after.chain.last().hash,
        )),
    ensures
        in_step(after),
{
    if mined {
        if let Some(store) = before.storage {
            let block = after.chain.last();
            lemma_rebuilt_chain_linked(store, store.tip->0);
            lemma_stored_block_is_rebuilt(store, before.chain, block);
        }
    }
}

} // verus!
