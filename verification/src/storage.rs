//! The record store: blocks keyed by their hash, and the hash of the chain
//! tip. It holds the records and answers lookups; it validates nothing.
//! Writing the records to a medium is the caller's part.

use crate::block::{Block, BlockView};
use vstd::prelude::*;

verus! {

/// Block records keyed by hash, and the tip pointer.
#[derive(Debug)]
pub struct Storage {
    blocks: Vec<Block>,
    last_hash: Option<String>,
}

/// The mathematical value of a [`Storage`]: a map from hash to block, the
/// optional tip hash, and the number of records.
pub struct StorageView {
    pub blocks: Map<Seq<char>, BlockView>,
    pub tip: Option<Seq<char>>,
    pub count: nat,
}

impl StorageView {
    /// The store with no record and no tip.
    pub open spec fn empty() -> StorageView {
        StorageView { blocks: Map::empty(), tip: None, count: 0 }
    }

    /// The store after `block` was stored under its hash.
    pub open spec fn with_block(self, block: BlockView) -> StorageView {
        StorageView {
            blocks: self.blocks.insert(block.hash, block),
            tip: self.tip,
            count: if self.blocks.contains_key(block.hash) {
                self.count
            } else {
                self.count + 1
            },
        }
    }

    /// Whether every record is stored under its own hash.
    pub open spec fn keyed_by_hash(self) -> bool {
        forall|key: Seq<char>|
            self.blocks.contains_key(key) ==> (#[trigger] self.blocks[key]).hash == key
    }

    /// Whether the store is in order: every record is stored under its own
    /// hash, and the count is the number of keys.
    pub open spec fn wf(self) -> bool {
        &&& self.keyed_by_hash()
        &&& self.blocks.dom().finite()
        &&& self.blocks.dom().len() == self.count
    }

    /// The store after the tip pointer was set to `hash`.
    pub open spec fn with_tip(self, hash: Seq<char>) -> StorageView {
        StorageView { blocks: self.blocks, tip: Some(hash), count: self.count }
    }
}

/// The key of the record at position `i`.
pub open spec fn key_at(records: Seq<Block>, i: int) -> Seq<char> {
    records[i].hash@
}

/// Whether no two records share a key.
spec fn distinct_keys(records: Seq<Block>) -> bool {
    forall|i: int, j: int|
        0 <= i < j < records.len() ==> #[trigger] key_at(records, i) != #[trigger] key_at(
            records,
            j,
        )
}

/// Whether some record has the key `key`.
pub open spec fn has_key(records: Seq<Block>, key: Seq<char>) -> bool {
    exists|i: int| 0 <= i < records.len() && #[trigger] key_at(records, i) == key
}

/// A position at which `key` is stored.
spec fn position_of(records: Seq<Block>, key: Seq<char>) -> int {
    choose|i: int| 0 <= i < records.len() && #[trigger] key_at(records, i) == key
}

/// The map that a list of records stands for.
spec fn index_of(records: Seq<Block>) -> Map<Seq<char>, BlockView> {
    Map::new(|key: Seq<char>| has_key(records, key), |key: Seq<char>| records[position_of(records, key)]@)
}

/// Whether the map that the records stand for has as many keys as there are
/// records.
spec fn counted(records: Seq<Block>) -> bool {
    &&& index_of(records).dom().finite()
    &&& index_of(records).dom().len() == records.len()
}

/// With distinct keys, the record at a position is what its key maps to.
proof fn lemma_index_of_position(records: Seq<Block>, i: int)
    requires
        distinct_keys(records),
        0 <= i < records.len(),
    ensures
        index_of(records).contains_key(key_at(records, i)),
        index_of(records)[key_at(records, i)] == records[i]@,
{
    let key = key_at(records, i);
    assert(has_key(records, key));
    let p = position_of(records, key);
    assert(0 <= p < records.len() && key_at(records, p) == key);
    if p < i {
        assert(key_at(records, p) != key_at(records, i));
    } else if i < p {
        assert(key_at(records, i) != key_at(records, p));
    }
}

impl View for Storage {
    type V = StorageView;

    closed spec fn view(&self) -> StorageView {
        StorageView {
            blocks: index_of(self.blocks@),
            tip: match self.last_hash {
                Some(hash) => Some(hash@),
                None => None,
            },
            count: self.blocks@.len(),
        }
    }
}

impl Storage {
    #[verifier::type_invariant]
    spec fn in_order(self) -> bool {
        distinct_keys(self.blocks@) && counted(self.blocks@)
    }

    /// Every record of a store is stored under its own hash.
    pub proof fn lemma_keyed_by_hash(&self)
        ensures
            self@.keyed_by_hash(),
    {
        assert forall|key: Seq<char>| self@.blocks.contains_key(key) implies (
        #[trigger] self@.blocks[key]).hash == key by {
            let p = position_of(self.blocks@, key);
            assert(key_at(self.blocks@, p) == key);
        }
    }

    /// An empty store.
    pub fn new() -> (store: Storage)
        ensures
            store@ == StorageView::empty(),
            store@.wf(),
    {
        let blocks: Vec<Block> = Vec::new();
        proof {
            lemma_no_records(blocks@);
        }
        Storage { blocks, last_hash: None }
    }

    /// The number of block records.
    pub fn len(&self) -> (count: usize)
        ensures
            count == self@.count,
            self@.wf(),
    {
        proof {
            use_type_invariant(self);
            self.lemma_keyed_by_hash();
        }
        self.blocks.len()
    }

    /// The hash of the chain tip, or `None` where no chain was stored.
    pub fn get_last_hash(&self) -> (tip: Option<String>)
        ensures
            tip is Some == self@.tip is Some,
            tip is Some ==> tip->0@ == self@.tip->0,
            self@.wf(),
    {
        proof {
            use_type_invariant(self);
            self.lemma_keyed_by_hash();
        }
        match &self.last_hash {
            Some(hash) => Some(hash.clone()),
            None => None,
        }
    }

    /// Overwrites the tip pointer.
    pub fn save_last_hash(&mut self, hash: &String)
        ensures
            final(self)@ == old(self)@.with_tip(hash@),
            final(self)@.wf(),
    {
        proof {
            use_type_invariant(&*self);
        }
        self.last_hash = Some(hash.clone());
        proof {
            self.lemma_keyed_by_hash();
        }
    }

    /// The position of the record with the key `hash`, if there is one.
    fn find(&self, hash: &String) -> (at: Option<usize>)
        ensures
            match at {
                Some(i) => i < self.blocks@.len() && key_at(self.blocks@, i as int) == hash@,
                None => !has_key(self.blocks@, hash@),
            },
    {
        let mut i: usize = 0;
        while i < self.blocks.len()
            invariant
                i <= self.blocks@.len(),
                forall|j: int| 0 <= j < i ==> key_at(self.blocks@, j) != hash@,
            decreases self.blocks@.len() - i,
        {
            if self.blocks[i].hash == *hash {
                return Some(i);
            }
            i = i + 1;
        }
        None
    }

    /// Looks up a block by its hash.
    pub fn get_block(&self, hash: &String) -> (found: Option<Block>)
        ensures
            found is Some == self@.blocks.contains_key(hash@),
            found is Some ==> found->0@ == self@.blocks[hash@],
            self@.wf(),
    {
        proof {
            use_type_invariant(self);
            self.lemma_keyed_by_hash();
        }
        match self.find(hash) {
            Some(i) => {
                proof {
                    lemma_index_of_position(self.blocks@, i as int);
                }
                Some(self.blocks[i].clone())
            },
            None => None,
        }
    }

    /// Stores `block` under its hash. A record already stored under that hash
    /// is overwritten. The tip pointer is not touched.
    pub fn insert_block(&mut self, block: &Block)
        ensures
            final(self)@ == old(self)@.with_block(block@),
            final(self)@.wf(),
    {
        proof {
            use_type_invariant(&*self);
        }
        let ghost before = self.blocks@;
        let copy = block.clone();
        let at = self.find(&block.hash);
        let mut blocks: Vec<Block> = Vec::new();
        proof {
            lemma_no_records(blocks@);
        }
        std::mem::swap(&mut blocks, &mut self.blocks);
        match at {
            Some(i) => {
                blocks[i] = copy;
                proof {
                    lemma_overwrite(before, blocks@, i as int);
                }
            },
            None => {
                blocks.push(copy);
                proof {
                    lemma_append(before, blocks@);
                }
            },
        }
        std::mem::swap(&mut blocks, &mut self.blocks);
        proof {
            self.lemma_keyed_by_hash();
        }
    }

    /// The records, in the order in which their keys were first stored.
    pub fn records(&self) -> (records: &Vec<Block>)
        ensures
            records@.len() == self@.count,
            forall|i: int|
                0 <= i < records@.len() ==> self@.blocks.contains_key(
                    #[trigger] key_at(records@, i),
                ) && self@.blocks[key_at(records@, i)] == records@[i]@,
            forall|key: Seq<char>| self@.blocks.contains_key(key) ==> has_key(records@, key),
            self@.wf(),
    {
        proof {
            use_type_invariant(self);
            self.lemma_keyed_by_hash();
            assert forall|i: int| 0 <= i < self.blocks@.len() implies index_of(
                self.blocks@,
            ).contains_key(#[trigger] key_at(self.blocks@, i)) && index_of(self.blocks@)[key_at(
                self.blocks@,
                i,
            )] == self.blocks@[i]@ by {
                lemma_index_of_position(self.blocks@, i);
            }
        }
        &self.blocks
    }
}

/// No records stand for the empty map.
proof fn lemma_no_records(records: Seq<Block>)
    requires
        records.len() == 0,
    ensures
        distinct_keys(records),
        counted(records),
        index_of(records) == Map::<Seq<char>, BlockView>::empty(),
{
    assert(index_of(records) =~= Map::<Seq<char>, BlockView>::empty());
    assert(index_of(records).dom() =~= Set::<Seq<char>>::empty());
}

/// Overwriting the record at `i` with one of the same key maps that key to
/// the new record and leaves the others.
proof fn lemma_overwrite(before: Seq<Block>, after: Seq<Block>, i: int)
    requires
        distinct_keys(before),
        counted(before),
        0 <= i < before.len(),
        after.len() == before.len(),
        key_at(after, i) == key_at(before, i),
        forall|j: int| 0 <= j < before.len() && j != i ==> after[j] == before[j],
    ensures
        distinct_keys(after),
        counted(after),
        index_of(after) == index_of(before).insert(key_at(after, i), after[i]@),
{
    assert(has_key(before, key_at(before, i)));
    assert forall|j: int| 0 <= j < before.len() implies #[trigger] key_at(after, j) == key_at(
        before,
        j,
    ) by {}
    assert(distinct_keys(after)) by {
        assert forall|a: int, b: int| 0 <= a < b < after.len() implies #[trigger] key_at(after, a)
            != #[trigger] key_at(after, b) by {
            assert(key_at(before, a) != key_at(before, b));
        }
    }
    let target = index_of(before).insert(key_at(after, i), after[i]@);
    assert forall|key: Seq<char>| index_of(after).contains_key(key) == target.contains_key(
        key,
    ) by {
        if has_key(after, key) {
            let p = position_of(after, key);
            assert(key_at(before, p) == key);
        }
        if has_key(before, key) {
            let p = position_of(before, key);
            assert(key_at(after, p) == key);
        }
        if key == key_at(after, i) {
            assert(has_key(after, key));
        }
    }
    assert forall|key: Seq<char>| index_of(after).contains_key(key) implies index_of(after)[key]
        == target[key] by {
        let p = position_of(after, key);
        lemma_index_of_position(after, p);
        if p != i {
            lemma_index_of_position(before, p);
        }
    }
    assert(index_of(after) =~= target);
}

/// Appending a record with a new key adds that key and leaves the others.
proof fn lemma_append(before: Seq<Block>, after: Seq<Block>)
    requires
        distinct_keys(before),
        counted(before),
        after.len() == before.len() + 1,
        forall|j: int| 0 <= j < before.len() ==> after[j] == before[j],
        !has_key(before, key_at(after, before.len() as int)),
    ensures
        distinct_keys(after),
        counted(after),
        index_of(after) == index_of(before).insert(after.last().hash@, after.last()@),
{
    let n = before.len() as int;
    assert forall|j: int| 0 <= j < n implies #[trigger] key_at(after, j) == key_at(before, j) by {}
    assert(distinct_keys(after)) by {
        assert forall|a: int, b: int| 0 <= a < b < after.len() implies #[trigger] key_at(after, a)
            != #[trigger] key_at(after, b) by {
            if b < n {
                assert(key_at(before, a) != key_at(before, b));
            } else {
                assert(key_at(before, a) == key_at(after, a));
            }
        }
    }
    let target = index_of(before).insert(key_at(after, n), after[n]@);
    assert forall|key: Seq<char>| index_of(after).contains_key(key) == target.contains_key(
        key,
    ) by {
        if has_key(after, key) {
            let p = position_of(after, key);
            if p < n {
                assert(key_at(before, p) == key);
            }
        }
        if has_key(before, key) {
            let p = position_of(before, key);
            assert(key_at(after, p) == key);
        }
        if key == key_at(after, n) {
            assert(has_key(after, key));
        }
    }
    assert forall|key: Seq<char>| index_of(after).contains_key(key) implies index_of(after)[key]
        == target[key] by {
        let p = position_of(after, key);
        lemma_index_of_position(after, p);
        if p < n {
            lemma_index_of_position(before, p);
        }
    }
    assert(index_of(after) =~= target);
}

impl Clone for Storage {
    fn clone(&self) -> (copy: Storage)
        ensures
            copy@ == self@,
            copy@.wf(),
    {
        proof {
            use_type_invariant(self);
            self.lemma_keyed_by_hash();
        }
        let mut blocks: Vec<Block> = Vec::new();
        let mut i: usize = 0;
        while i < self.blocks.len()
            invariant
                i <= self.blocks@.len(),
                blocks@.len() == i,
                forall|j: int| 0 <= j < i ==> blocks@[j]@ == self.blocks@[j]@,
            decreases self.blocks@.len() - i,
        {
            blocks.push(self.blocks[i].clone());
            i = i + 1;
        }
        let last_hash = match &self.last_hash {
            Some(hash) => Some(hash.clone()),
            None => None,
        };
        proof {
            lemma_same_views_same_index(self.blocks@, blocks@);
        }
        Storage { blocks, last_hash }
    }
}

/// Two lists of records with the same values, position by position, stand
/// for the same map.
proof fn lemma_same_views_same_index(a: Seq<Block>, b: Seq<Block>)
    requires
        distinct_keys(a),
        counted(a),
        a.len() == b.len(),
        forall|j: int| 0 <= j < a.len() ==> a[j]@ == b[j]@,
    ensures
        distinct_keys(b),
        counted(b),
        index_of(a) == index_of(b),
{
    assert forall|j: int| 0 <= j < a.len() implies #[trigger] key_at(a, j) == key_at(b, j) by {
        assert(a[j]@.hash == b[j]@.hash);
    }
    assert(distinct_keys(b)) by {
        assert forall|x: int, y: int| 0 <= x < y < b.len() implies #[trigger] key_at(b, x)
            != #[trigger] key_at(b, y) by {
            assert(key_at(a, x) != key_at(a, y));
        }
    }
    assert forall|key: Seq<char>| index_of(a).contains_key(key) == index_of(b).contains_key(
        key,
    ) by {
        if has_key(a, key) {
            let p = position_of(a, key);
            assert(key_at(b, p) == key);
        }
        if has_key(b, key) {
            let p = position_of(b, key);
            assert(key_at(a, p) == key);
        }
    }
    assert forall|key: Seq<char>| index_of(a).contains_key(key) implies index_of(a)[key]
        == index_of(b)[key] by {
        let p = position_of(a, key);
        lemma_index_of_position(a, p);
        assert(key_at(b, p) == key);
        lemma_index_of_position(b, p);
    }
    assert(index_of(a) =~= index_of(b));
}

} // verus!
