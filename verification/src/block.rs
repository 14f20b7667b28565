//! Blocks: an ordered container of transactions, linked to its predecessor by
//! hash and sealed by a proof-of-work nonce.

use crate::clock::now_millis;
use crate::hash::{append_bytes, concat_all, digest_hex, hash_fields, slices_view};
use crate::pow::{has_leading_zeros, meets_target};
use crate::transaction::{genesis_transaction, Transaction, TransactionView, GENESIS_TIMESTAMP};
use vstd::bytes::{
    spec_u128_to_le_bytes, spec_u64_to_le_bytes, u128_to_le_bytes, u64_to_le_bytes,
};
use vstd::prelude::*;
use vstd::std_specs::cmp::PartialEqSpecImpl;
use vstd::string::StringExecFns;
use vstd::utf8::encode_utf8;

verus! {

/// A block of the chain.
#[derive(Debug)]
pub struct Block {
    pub index: u64,
    pub timestamp: u128,
    pub previous_hash: String,
    pub hash: String,
    pub transactions: Vec<Transaction>,
    pub nonce: u64,
}

/// The mathematical value of a [`Block`].
pub struct BlockView {
    pub index: u64,
    pub timestamp: u128,
    pub previous_hash: Seq<char>,
    pub hash: Seq<char>,
    pub transactions: Seq<TransactionView>,
    pub nonce: u64,
}

/// The values of a sequence of transactions.
pub open spec fn transaction_views(transactions: Seq<Transaction>) -> Seq<TransactionView> {
    Seq::new(transactions.len(), |i: int| transactions[i]@)
}

/// The canonical records of `transactions`, one after the other.
pub open spec fn records(transactions: Seq<TransactionView>) -> Seq<u8>
    decreases transactions.len(),
{
    if transactions.len() == 0 {
        Seq::empty()
    } else {
        records(transactions.drop_last()) + transactions.last().record_bytes()
    }
}

/// The bytes that a block's hash is taken over: index (8 bytes, little
/// endian), timestamp (16 bytes, little endian), the previous hash as text,
/// the transaction records, nonce (8 bytes, little endian).
pub open spec fn block_preimage(
    index: u64,
    timestamp: u128,
    previous_hash: Seq<char>,
    transactions: Seq<TransactionView>,
    nonce: u64,
) -> Seq<u8> {
    spec_u64_to_le_bytes(index) + spec_u128_to_le_bytes(timestamp) + encode_utf8(previous_hash)
        + records(transactions) + spec_u64_to_le_bytes(nonce)
}

/// The previous-hash of a genesis block: 64 characters `0`.
pub open spec fn zero_hash() -> Seq<char> {
    Seq::new(64, |i: int| '0')
}

/// The fixed genesis block: index 0, timestamp 0, previous hash of 64 zeros,
/// the genesis transaction alone, nonce 0, sealed.
pub open spec fn genesis_block() -> BlockView {
    (BlockView {
        index: 0,
        timestamp: GENESIS_TIMESTAMP,
        previous_hash: zero_hash(),
        hash: Seq::empty(),
        transactions: seq![genesis_transaction()],
        nonce: 0,
    }).at_nonce(0)
}

impl BlockView {
    /// The hash that the hashed fields call for.
    pub open spec fn expected_hash(self) -> Seq<char> {
        digest_hex(
            block_preimage(
                self.index,
                self.timestamp,
                self.previous_hash,
                self.transactions,
                self.nonce,
            ),
        )
    }

    /// Whether the stored hash is the hash of the other fields.
    pub open spec fn is_sealed(self) -> bool {
        self.hash == self.expected_hash()
    }

    /// This block with the given nonce and the hash that goes with it.
    pub open spec fn at_nonce(self, nonce: u64) -> BlockView {
        BlockView {
            index: self.index,
            timestamp: self.timestamp,
            previous_hash: self.previous_hash,
            hash: digest_hex(
                block_preimage(
                    self.index,
                    self.timestamp,
                    self.previous_hash,
                    self.transactions,
                    nonce,
                ),
            ),
            transactions: self.transactions,
            nonce,
        }
    }

    /// Whether `nonce` gives this block a hash that meets `difficulty`.
    pub open spec fn solves(self, nonce: u64, difficulty: nat) -> bool {
        has_leading_zeros(self.at_nonce(nonce).hash, difficulty)
    }
}

impl View for Block {
    type V = BlockView;

    open spec fn view(&self) -> BlockView {
        BlockView {
            index: self.index,
            timestamp: self.timestamp,
            previous_hash: self.previous_hash@,
            hash: self.hash@,
            transactions: transaction_views(self.transactions@),
            nonce: self.nonce,
        }
    }
}

/// The text of 64 characters `0`.
pub fn zero_hash_text() -> (text: String)
    ensures
        text@ == zero_hash(),
{
    let text = String::from_str("0000000000000000000000000000000000000000000000000000000000000000");
    proof {
        reveal_strlit("0000000000000000000000000000000000000000000000000000000000000000");
        assert(text@ =~= zero_hash());
    }
    text
}

/// Whether `hash` is the previous-hash of a genesis block.
pub fn is_zero_hash(hash: &String) -> (yes: bool)
    ensures
        yes == (hash@ == zero_hash()),
{
    let zeros = zero_hash_text();
    *hash == zeros
}

/// The canonical records of `transactions`, one after the other.
pub fn transaction_records(transactions: &Vec<Transaction>) -> (out: Vec<u8>)
    ensures
        out@ == records(transaction_views(transactions@)),
{
    let mut out: Vec<u8> = Vec::new();
    let mut i: usize = 0;
    while i < transactions.len()
        invariant
            i <= transactions.len(),
            out@ == records(transaction_views(transactions@).take(i as int)),
        decreases transactions.len() - i,
    {
        let record = transactions[i].to_bytes();
        append_bytes(&mut out, record.as_slice());
        proof {
            let all = transaction_views(transactions@);
            assert(all.take(i + 1).drop_last() == all.take(i as int));
            assert(all.take(i + 1).last() == transactions@[i as int]@);
        }
        i = i + 1;
    }
    proof {
        let all = transaction_views(transactions@);
        assert(all.take(i as int) == all);
    }
    out
}

/// Copies a list of transactions.
pub fn clone_transactions(transactions: &Vec<Transaction>) -> (copy: Vec<Transaction>)
    ensures
        transaction_views(copy@) == transaction_views(transactions@),
{
    let mut copy: Vec<Transaction> = Vec::new();
    let mut i: usize = 0;
    while i < transactions.len()
        invariant
            i <= transactions.len(),
            copy@.len() == i,
            forall|j: int| 0 <= j < i ==> copy@[j]@ == transactions@[j]@,
        decreases transactions.len() - i,
    {
        copy.push(transactions[i].clone());
        i = i + 1;
    }
    proof {
        assert(transaction_views(copy@) =~= transaction_views(transactions@));
    }
    copy
}

/// Whether two lists of transactions hold the same values in the same order.
pub fn same_transactions(a: &Vec<Transaction>, b: &Vec<Transaction>) -> (same: bool)
    ensures
        same == (transaction_views(a@) == transaction_views(b@)),
{
    if a.len() != b.len() {
        proof {
            assert(transaction_views(a@).len() != transaction_views(b@).len());
        }
        return false;
    }
    let mut i: usize = 0;
    while i < a.len()
        invariant
            i <= a.len(),
            a.len() == b.len(),
            forall|j: int| 0 <= j < i ==> a@[j]@ == b@[j]@,
        decreases a.len() - i,
    {
        if a[i] != b[i] {
            proof {
                assert(transaction_views(a@)[i as int] == a@[i as int]@);
                assert(transaction_views(b@)[i as int] == b@[i as int]@);
            }
            return false;
        }
        i = i + 1;
    }
    proof {
        assert(transaction_views(a@) =~= transaction_views(b@));
    }
    true
}

impl Block {
    /// Creates an unmined block stamped with the current time: nonce 0 and
    /// the hash that goes with it.
    pub fn new(index: u64, previous_hash: String, transactions: Vec<Transaction>) -> (block: Block)
        ensures
            block@.index == index,
            block@.previous_hash == previous_hash@,
            block@.transactions == transaction_views(transactions@),
            block@.nonce == 0,
            block@.is_sealed(),
    {
        let timestamp = now_millis();
        Block::with_timestamp(index, timestamp, previous_hash, transactions)
    }

    /// Creates an unmined block with the given timestamp: nonce 0 and the
    /// hash that goes with it.
    pub fn with_timestamp(
        index: u64,
        timestamp: u128,
        previous_hash: String,
        transactions: Vec<Transaction>,
    ) -> (block: Block)
        ensures
            block@ == (BlockView {
                index,
                timestamp,
                previous_hash: previous_hash@,
                hash: Seq::empty(),
                transactions: transaction_views(transactions@),
                nonce: 0,
            }).at_nonce(0),
            block@.is_sealed(),
            block@.hash.len() == 64,
    {
        let mut block = Block {
            index,
            timestamp,
            previous_hash,
            hash: String::new(),
            transactions,
            nonce: 0,
        };
        block.hash = block.calculate_hash();
        block
    }

    /// The fixed genesis block.
    pub fn genesis() -> (block: Block)
        ensures
            block@ == genesis_block(),
            block@.is_sealed(),
            block@.index == 0,
            block@.previous_hash == zero_hash(),
            block@.transactions == seq![genesis_transaction()],
    {
        let mut transactions: Vec<Transaction> = Vec::new();
        transactions.push(Transaction::genesis());
        proof {
            assert(transaction_views(transactions@) =~= seq![genesis_transaction()]);
        }
        Block::with_timestamp(0, GENESIS_TIMESTAMP, zero_hash_text(), transactions)
    }

    /// Recomputes the hash from the current fields. The stored hash is
    /// neither read nor changed.
    pub fn calculate_hash(&self) -> (out: String)
        ensures
            out@ == self@.expected_hash(),
            out@.len() == 64,
    {
        let tx_data = transaction_records(&self.transactions);
        let index_bytes = u64_to_le_bytes(self.index);
        let timestamp_bytes = u128_to_le_bytes(self.timestamp);
        let nonce_bytes = u64_to_le_bytes(self.nonce);
        let fields: [&[u8]; 5] = [
            index_bytes.as_slice(),
            timestamp_bytes.as_slice(),
            self.previous_hash.as_str().as_bytes(),
            tx_data.as_slice(),
            nonce_bytes.as_slice(),
        ];
        proof {
            let parts = slices_view(fields@);
            reveal_with_fuel(concat_all, 6);
            assert(concat_all(parts) =~= block_preimage(
                self@.index,
                self@.timestamp,
                self@.previous_hash,
                self@.transactions,
                self@.nonce,
            ));
        }
        hash_fields(fields.as_slice())
    }

    /// Whether the stored hash is the hash of the other fields.
    pub fn is_sealed(&self) -> (ok: bool)
        ensures
            ok == self@.is_sealed(),
    {
        let expected = self.calculate_hash();
        self.hash == expected
    }

    /// Searches for a proof of work. While the stored hash does not start
    /// with `difficulty` zero characters, the nonce is incremented and the
    /// hash recomputed. Returns whether the target is met; it is not only
    /// where the nonce has reached `u64::MAX` without meeting it.
    pub fn mine(&mut self, difficulty: usize) -> (found: bool)
        ensures
            found == has_leading_zeros(final(self)@.hash, difficulty as nat),
            has_leading_zeros(old(self)@.hash, difficulty as nat) ==> final(self)@ == old(self)@,
            !has_leading_zeros(old(self)@.hash, difficulty as nat) ==> {
                &&& old(self)@.nonce <= final(self)@.nonce
                &&& forall|n: u64|
                    old(self)@.nonce < n < final(self)@.nonce ==> !#[trigger] old(self)@.solves(
                        n,
                        difficulty as nat,
                    )
                &&& if old(self)@.nonce < final(self)@.nonce {
                    final(self)@ == old(self)@.at_nonce(final(self)@.nonce)
                } else {
                    final(self)@ == old(self)@
                }
                &&& !found ==> final(self)@.nonce == u64::MAX
            },
            old(self)@.is_sealed() || (found && !has_leading_zeros(
                old(self)@.hash,
                difficulty as nat,
            )) ==> final(self)@.is_sealed(),
    {
        self.mine_bounded(difficulty, u64::MAX)
    }

    /// Searches for a proof of work as [`Block::mine`] does, but tries at
    /// most `attempts` further nonces. Where the target is not met, the
    /// block stands at the last nonce tried, so that a later call goes on
    /// from there.
    pub fn mine_bounded(&mut self, difficulty: usize, attempts: u64) -> (found: bool)
        ensures
            found == has_leading_zeros(final(self)@.hash, difficulty as nat),
            has_leading_zeros(old(self)@.hash, difficulty as nat) ==> final(self)@ == old(self)@,
            !has_leading_zeros(old(self)@.hash, difficulty as nat) ==> {
                &&& old(self)@.nonce <= final(self)@.nonce <= old(self)@.nonce + attempts
                &&& forall|n: u64|
                    old(self)@.nonce < n < final(self)@.nonce ==> !#[trigger] old(self)@.solves(
                        n,
                        difficulty as nat,
                    )
                &&& if old(self)@.nonce < final(self)@.nonce {
                    final(self)@ == old(self)@.at_nonce(final(self)@.nonce)
                } else {
                    final(self)@ == old(self)@
                }
                &&& !found ==> final(self)@.nonce == u64::MAX || final(self)@.nonce == old(
                    self,
                )@.nonce + attempts
            },
            old(self)@.is_sealed() || (found && !has_leading_zeros(
                old(self)@.hash,
                difficulty as nat,
            )) ==> final(self)@.is_sealed(),
    {
        let mut found = meets_target(self.hash.as_str(), difficulty);
        let mut left: u64 = attempts;
        while !found && left > 0 && self.nonce < u64::MAX
            invariant
                found == has_leading_zeros(self@.hash, difficulty as nat),
                has_leading_zeros(old(self)@.hash, difficulty as nat) ==> self@ == old(self)@,
                left <= attempts,
                self@.nonce == old(self)@.nonce + (attempts - left),
                forall|n: u64|
                    old(self)@.nonce < n <= self@.nonce ==> (n < self@.nonce || !found)
                        ==> !#[trigger] old(self)@.solves(n, difficulty as nat),
                if old(self)@.nonce < self@.nonce {
                    self@ == old(self)@.at_nonce(self@.nonce)
                } else {
                    self@ == old(self)@
                },
            decreases left,
        {
            self.nonce = self.nonce + 1;
            self.hash = self.calculate_hash();
            found = meets_target(self.hash.as_str(), difficulty);
            left = left - 1;
        }
        found
    }
}

impl Clone for Block {
    fn clone(&self) -> (copy: Block)
        ensures
            copy@ == self@,
    {
        Block {
            index: self.index,
            timestamp: self.timestamp,
            previous_hash: self.previous_hash.clone(),
            hash: self.hash.clone(),
            transactions: clone_transactions(&self.transactions),
            nonce: self.nonce,
        }
    }
}

impl PartialEq for Block {
    fn eq(&self, other: &Block) -> (same: bool) {
        self.index == other.index && self.timestamp == other.timestamp && self.previous_hash
            == other.previous_hash && self.hash == other.hash && same_transactions(
            &self.transactions,
            &other.transactions,
        ) && self.nonce == other.nonce
    }
}

impl PartialEqSpecImpl for Block {
    open spec fn obeys_eq_spec() -> bool {
        true
    }

    open spec fn eq_spec(&self, other: &Block) -> bool {
        self@ == other@
    }
}

} // verus!
