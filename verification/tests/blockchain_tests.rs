use budlum::blockchain::{check_link, load_chain, ChainFault, LoadError, Startup};
use budlum::{Block, Blockchain, Storage, Transaction};

fn tx(from: &str, to: &str, amount: u64) -> Transaction {
    Transaction::with_timestamp(from.to_string(), to.to_string(), amount, vec![], 1000)
}

fn mined_chain(difficulty: usize, blocks: usize, storage: Option<Storage>) -> Blockchain {
    let mut chain = Blockchain::new(difficulty, storage);
    for i in 0..blocks {
        chain.add_transaction(tx("alice", "bob", i as u64));
        assert!(chain.mine_pending_at(2000 + i as u128));
    }
    chain
}

fn hashes(chain: &Blockchain) -> Vec<String> {
    chain.chain.iter().map(|b| b.hash.clone()).collect()
}

#[test]
fn test_blockchain() {
    let mut blockchain = Blockchain::new(2, None);

    blockchain.add_transaction(Transaction::new(
        "alice".to_string(),
        "bob".to_string(),
        50,
        vec![],
    ));
    blockchain.mine_pending_transactions("miner1".to_string());

    assert!(blockchain.is_valid());
    assert_eq!(blockchain.chain.len(), 2);
}

#[test]
fn mining_empties_the_pending_pool() {
    let mut blockchain = Blockchain::new(2, None);
    blockchain.add_transaction(Transaction::new(
        "alice".to_string(),
        "bob".to_string(),
        50,
        vec![],
    ));
    assert!(blockchain.mine_pending_transactions("miner1".to_string()));
    assert_eq!(blockchain.chain.len(), 2);
    assert!(blockchain.is_valid());
    assert!(blockchain.pending_transactions.is_empty());
}

#[test]
fn fresh_chain_is_the_genesis_block_alone() {
    let chain = Blockchain::new(3, None);
    assert_eq!(chain.chain, vec![Block::genesis()]);
    assert_eq!(chain.difficulty, 3);
    assert!(chain.pending_transactions.is_empty());
    assert!(chain.storage.is_none());
    assert!(chain.is_valid());
    assert_eq!(chain.find_fault(), None);
    assert_eq!(chain.last_block(), &Block::genesis());
}

#[test]
fn fresh_chain_on_a_store_persists_genesis() {
    let (chain, startup) = Blockchain::open(1, Some(Storage::new()));
    assert_eq!(startup, Startup::Fresh);
    let store = chain.storage.as_ref().unwrap();
    let genesis = Block::genesis();
    assert_eq!(store.get_last_hash(), Some(genesis.hash.clone()));
    assert_eq!(store.get_block(&genesis.hash), Some(genesis));
    assert_eq!(store.len(), 1);
}

#[test]
fn open_without_a_store_is_fresh() {
    let (chain, startup) = Blockchain::open(1, None);
    assert_eq!(startup, Startup::Fresh);
    assert_eq!(chain.chain.len(), 1);
}

#[test]
fn add_transaction_appends_without_checks() {
    let mut chain = Blockchain::new(1, None);
    let first = tx("alice", "bob", 1);
    let mut unsealed = tx("bob", "carol", 2);
    unsealed.hash = "bad".to_string();
    chain.add_transaction(first.clone());
    chain.add_transaction(first.clone());
    chain.add_transaction(unsealed.clone());
    assert_eq!(chain.pending_transactions, vec![first.clone(), first, unsealed]);
    assert_eq!(chain.chain.len(), 1);
}

#[test]
fn mined_block_takes_index_tip_and_pool() {
    let mut chain = Blockchain::new(1, None);
    let first = tx("alice", "bob", 1);
    let second = tx("bob", "carol", 2);
    chain.add_transaction(first.clone());
    chain.add_transaction(second.clone());
    let tip = chain.last_block().hash.clone();
    assert!(chain.mine_pending_at(4242));
    let block = chain.last_block();
    assert_eq!(block.index, 1);
    assert_eq!(block.timestamp, 4242);
    assert_eq!(block.previous_hash, tip);
    assert_eq!(block.transactions, vec![first, second]);
    assert!(block.hash.starts_with("0"));
    assert_eq!(block.hash, block.calculate_hash());
}

#[test]
fn mined_block_is_the_candidate_at_its_least_nonce() {
    let mut chain = Blockchain::new(2, None);
    chain.add_transaction(tx("alice", "bob", 1));
    let tip = chain.last_block().hash.clone();
    let pool = chain.pending_transactions.clone();
    assert!(chain.mine_pending_at(77));
    let mut candidate = Block::with_timestamp(1, 77, tip, pool);
    assert!(candidate.mine(2));
    assert_eq!(chain.last_block(), &candidate);
}

#[test]
fn mining_an_empty_pool_appends_an_empty_block() {
    let mut chain = Blockchain::new(1, None);
    assert!(chain.mine_pending_at(5));
    assert_eq!(chain.chain.len(), 2);
    assert!(chain.last_block().transactions.is_empty());
    assert!(chain.is_valid());
}

#[test]
fn chains_built_by_mining_are_valid() {
    let chain = mined_chain(1, 4, None);
    assert_eq!(chain.chain.len(), 5);
    assert!(chain.is_valid());
    for (i, block) in chain.chain.iter().enumerate() {
        assert_eq!(block.index, i as u64);
    }
}

#[test]
fn mining_persists_the_block_and_moves_the_tip() {
    let chain = mined_chain(1, 2, Some(Storage::new()));
    let store = chain.storage.as_ref().unwrap();
    assert_eq!(store.len(), 3);
    assert_eq!(store.get_last_hash(), Some(chain.last_block().hash.clone()));
    for block in &chain.chain {
        assert_eq!(store.get_block(&block.hash), Some(block.clone()));
    }
}

#[test]
fn stored_chain_is_rebuilt_on_construction() {
    let stored = mined_chain(1, 2, Some(Storage::new()));
    assert_eq!(stored.chain.len(), 3);
    let store = stored.storage.clone().unwrap();
    let (reloaded, startup) = Blockchain::open(1, Some(store));
    assert_eq!(startup, Startup::Loaded);
    assert_eq!(reloaded.chain.len(), stored.chain.len());
    assert_eq!(hashes(&reloaded), hashes(&stored));
    assert_eq!(reloaded.chain, stored.chain);
    assert!(reloaded.pending_transactions.is_empty());
    assert!(reloaded.is_valid());
}

#[test]
fn reloading_leaves_the_store_as_it_was() {
    let stored = mined_chain(1, 2, Some(Storage::new()));
    let store = stored.storage.clone().unwrap();
    let reloaded = Blockchain::new(1, Some(store.clone()));
    let after = reloaded.storage.unwrap();
    assert_eq!(after.records(), store.records());
    assert_eq!(after.get_last_hash(), store.get_last_hash());
}

#[test]
fn missing_tip_record_falls_back_to_genesis() {
    let mut store = Storage::new();
    store.save_last_hash(&"nowhere".to_string());
    let (chain, startup) = Blockchain::open(1, Some(store));
    assert_eq!(startup, Startup::Recovered);
    assert_eq!(chain.chain, vec![Block::genesis()]);
    let store = chain.storage.unwrap();
    assert_eq!(store.get_last_hash(), Some(Block::genesis().hash));
}

#[test]
fn broken_link_discards_everything_loaded() {
    let stored = mined_chain(1, 3, None);
    let mut store = Storage::new();
    store.insert_block(&stored.chain[0]);
    store.insert_block(&stored.chain[2]);
    store.insert_block(&stored.chain[3]);
    store.save_last_hash(&stored.chain[3].hash);
    let (chain, startup) = Blockchain::open(1, Some(store));
    assert_eq!(startup, Startup::Recovered);
    assert_eq!(chain.chain, vec![Block::genesis()]);
}

#[test]
fn links_that_run_in_a_circle_fail_to_load() {
    let mut a = Block::with_timestamp(1, 1, "hash-b".to_string(), vec![]);
    a.hash = "hash-a".to_string();
    let mut b = Block::with_timestamp(2, 2, "hash-a".to_string(), vec![]);
    b.hash = "hash-b".to_string();
    let mut store = Storage::new();
    store.insert_block(&a);
    store.insert_block(&b);
    store.save_last_hash(&"hash-a".to_string());
    assert_eq!(load_chain(&store, &"hash-a".to_string()), None);
    let (chain, startup) = Blockchain::open(1, Some(store));
    assert_eq!(startup, Startup::Recovered);
    assert_eq!(chain.chain.len(), 1);
}

#[test]
fn load_chain_walks_back_to_genesis() {
    let stored = mined_chain(1, 2, Some(Storage::new()));
    let store = stored.storage.clone().unwrap();
    let loaded = load_chain(&store, &stored.chain[1].hash).unwrap();
    assert_eq!(loaded, stored.chain[..2].to_vec());
    let whole = load_chain(&store, &stored.chain[2].hash).unwrap();
    assert_eq!(whole, stored.chain);
}

#[test]
fn load_chain_from_db_reports_a_broken_chain() {
    let mut chain = Blockchain::new(1, None);
    let before = chain.chain.clone();
    assert_eq!(
        chain.load_chain_from_db("anything".to_string()),
        Err(LoadError::ChainBroken)
    );
    assert_eq!(chain.chain, before);

    let mut stored = Blockchain::new(1, Some(Storage::new()));
    assert_eq!(
        stored.load_chain_from_db("missing".to_string()),
        Err(LoadError::ChainBroken)
    );
    assert_eq!(stored.chain, before);
    assert_eq!(stored.load_chain_from_db(Block::genesis().hash), Ok(()));
    assert_eq!(stored.chain, before);
}

#[test]
fn tampered_previous_hash_is_found_out() {
    let mut chain = mined_chain(1, 3, None);
    assert!(chain.is_valid());
    chain.chain[2].previous_hash = "f".repeat(64);
    assert!(!chain.is_valid());
    assert_eq!(chain.find_fault(), Some(ChainFault::PreviousHash { index: 2 }));
}

#[test]
fn tampered_genesis_previous_hash_is_found_out() {
    let mut chain = mined_chain(1, 1, None);
    chain.chain[0].previous_hash = "f".repeat(64);
    assert!(!chain.is_valid());
    assert_eq!(chain.find_fault(), Some(ChainFault::GenesisHash));
}

#[test]
fn tampered_content_is_found_out() {
    let mut chain = mined_chain(1, 2, None);
    chain.chain[1].transactions[0].amount = 1_000_000;
    assert!(!chain.is_valid());
    assert_eq!(chain.find_fault(), Some(ChainFault::Hash { index: 1 }));
}

#[test]
fn missed_target_is_found_out() {
    let mut chain = mined_chain(1, 2, None);
    chain.difficulty = 64;
    assert!(!chain.is_valid());
    assert_eq!(chain.find_fault(), Some(ChainFault::ProofOfWork { index: 1 }));
}

#[test]
fn the_first_fault_is_reported() {
    let mut chain = mined_chain(1, 3, None);
    chain.chain[3].previous_hash = "f".repeat(64);
    chain.chain[1].nonce += 1;
    assert_eq!(chain.find_fault(), Some(ChainFault::Hash { index: 1 }));
}

#[test]
fn genesis_needs_no_proof_of_work() {
    let chain = Blockchain::new(64, None);
    assert!(chain.is_valid());
}

#[test]
fn an_emptied_chain_has_no_fault() {
    let mut chain = Blockchain::new(1, None);
    chain.chain.clear();
    assert!(chain.is_valid());
}

#[test]
fn check_link_reports_the_first_broken_rule() {
    let mut block = Block::with_timestamp(1, 5, "prev".to_string(), vec![]);
    block.mine(1);
    let hash = block.hash.clone();
    let prev = "prev".to_string();
    assert_eq!(check_link(&prev, &block, &hash, 1, 1), None);
    assert_eq!(
        check_link(&"other".to_string(), &block, &"x".to_string(), 1, 64),
        Some(ChainFault::PreviousHash { index: 1 })
    );
    assert_eq!(
        check_link(&prev, &block, &"x".to_string(), 7, 64),
        Some(ChainFault::Hash { index: 7 })
    );
    assert_eq!(
        check_link(&prev, &block, &hash, 9, 64),
        Some(ChainFault::ProofOfWork { index: 9 })
    );
}

#[test]
fn empty_candidate_is_invalid() {
    let chain = Blockchain::new(1, None);
    assert!(!chain.is_valid_chain(&[]));
}

#[test]
fn candidate_must_start_with_genesis() {
    let chain = mined_chain(1, 2, None);
    assert!(!chain.is_valid_chain(&chain.chain[1..]));
    let mut forged = chain.chain.clone();
    forged[0].timestamp = 1;
    forged[0].hash = forged[0].calculate_hash();
    assert!(!chain.is_valid_chain(&forged));
}

#[test]
fn candidate_built_by_mining_is_valid() {
    let chain = mined_chain(1, 3, None);
    let node = Blockchain::new(1, None);
    assert!(node.is_valid_chain(&chain.chain));
    assert!(node.is_valid_chain(&[Block::genesis()]));
}

#[test]
fn candidate_with_a_faulty_block_is_invalid() {
    let chain = mined_chain(1, 3, None);
    let node = Blockchain::new(1, None);
    let mut broken_link = chain.chain.clone();
    broken_link[2].previous_hash = "f".repeat(64);
    assert!(!node.is_valid_chain(&broken_link));
    let mut broken_hash = chain.chain.clone();
    broken_hash[3].nonce += 1;
    assert!(!node.is_valid_chain(&broken_hash));
    let harder = Blockchain::new(64, None);
    assert!(!harder.is_valid_chain(&chain.chain));
}

#[test]
fn accept_block_appends_what_extends_the_chain() {
    let source = mined_chain(1, 2, None);
    let mut node = Blockchain::new(1, Some(Storage::new()));
    assert!(node.accept_block(source.chain[1].clone()));
    assert!(node.accept_block(source.chain[2].clone()));
    assert_eq!(node.chain, source.chain);
    let store = node.storage.as_ref().unwrap();
    assert_eq!(store.get_last_hash(), Some(source.chain[2].hash.clone()));
    assert_eq!(store.len(), 3);
}

#[test]
fn accept_block_discards_what_does_not_extend() {
    let source = mined_chain(1, 2, None);
    let mut node = Blockchain::new(1, None);
    let before = node.chain.clone();
    assert!(!node.accept_block(source.chain[2].clone()));
    assert!(!node.accept_block(Block::genesis()));
    let mut wrong_index = source.chain[1].clone();
    wrong_index.index = 5;
    wrong_index.hash = wrong_index.calculate_hash();
    assert!(!node.accept_block(wrong_index));
    let mut unsealed = source.chain[1].clone();
    unsealed.nonce += 1;
    assert!(!node.accept_block(unsealed));
    assert_eq!(node.chain, before);
    let mut harder = Blockchain::new(64, None);
    assert!(!harder.accept_block(source.chain[1].clone()));
}

#[test]
fn longer_valid_chain_replaces_the_current_one() {
    let longer = mined_chain(1, 3, None);
    let mut node = mined_chain(1, 1, Some(Storage::new()));
    node.add_transaction(tx("x", "y", 9));
    assert!(node.replace_chain(longer.chain.clone()));
    assert_eq!(node.chain, longer.chain);
    assert_eq!(node.pending_transactions.len(), 1);
    let store = node.storage.clone().unwrap();
    assert_eq!(store.get_last_hash(), Some(longer.chain[3].hash.clone()));
    let reloaded = Blockchain::new(1, Some(store));
    assert_eq!(reloaded.chain, longer.chain);
}

#[test]
fn chain_of_equal_length_keeps_the_current_one() {
    let mut node = mined_chain(1, 2, None);
    let mut other = Blockchain::new(1, None);
    other.add_transaction(tx("x", "y", 9));
    assert!(other.mine_pending_at(1));
    other.add_transaction(tx("x", "y", 10));
    assert!(other.mine_pending_at(2));
    let before = node.chain.clone();
    assert!(!node.replace_chain(other.chain.clone()));
    assert!(!node.replace_chain(other.chain[..2].to_vec()));
    assert_eq!(node.chain, before);
}

#[test]
fn longer_invalid_chain_keeps_the_current_one() {
    let mut longer = mined_chain(1, 3, None);
    longer.chain[2].previous_hash = "f".repeat(64);
    let mut node = mined_chain(1, 1, None);
    let before = node.chain.clone();
    assert!(!node.replace_chain(longer.chain.clone()));
    assert_eq!(node.chain, before);
}

#[test]
fn summary_lists_each_block() {
    let mut chain = mined_chain(1, 2, None);
    chain.add_transaction(tx("x", "y", 9));
    let summary = chain.summary();
    assert_eq!(summary.length, 3);
    assert_eq!(summary.difficulty, 1);
    assert_eq!(summary.pending, 1);
    assert_eq!(summary.blocks.len(), 3);
    for (line, block) in summary.blocks.iter().zip(&chain.chain) {
        assert_eq!(line.index, block.index);
        assert_eq!(line.hash, block.hash);
    }
}

#[test]
fn cloned_chain_has_the_same_value() {
    let mut chain = mined_chain(1, 2, Some(Storage::new()));
    chain.add_transaction(tx("x", "y", 9));
    let copy = chain.clone();
    assert_eq!(copy.chain, chain.chain);
    assert_eq!(copy.difficulty, chain.difficulty);
    assert_eq!(copy.pending_transactions, chain.pending_transactions);
    assert_eq!(
        copy.storage.unwrap().records(),
        chain.storage.unwrap().records()
    );
}

#[test]
fn load_error_has_its_text() {
    assert_eq!(LoadError::ChainBroken.message(), "Chain broken or empty");
}

#[test]
fn next_block_is_the_unmined_candidate() {
    let mut chain = mined_chain(1, 1, None);
    chain.add_transaction(tx("x", "y", 9));
    let block = chain.next_block(31);
    assert_eq!(block.index, 2);
    assert_eq!(block.timestamp, 31);
    assert_eq!(block.previous_hash, chain.last_block().hash);
    assert_eq!(block.transactions, chain.pending_transactions);
    assert_eq!(block.nonce, 0);
    assert_eq!(block.hash, block.calculate_hash());
    assert_eq!(chain.chain.len(), 2);
    assert_eq!(chain.pending_transactions.len(), 1);
}

#[test]
fn store_and_chain_stay_in_step_through_mining() {
    let mut chain = Blockchain::new(1, Some(Storage::new()));
    for round in 0..4u64 {
        chain.add_transaction(tx("alice", "bob", round));
        assert!(chain.mine_pending_at(round as u128));
        let store = chain.storage.clone().unwrap();
        let rebuilt = load_chain(&store, &store.get_last_hash().unwrap()).unwrap();
        assert_eq!(rebuilt, chain.chain);
    }
}
