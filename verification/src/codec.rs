//! The binary layout of transactions and blocks for storing and sending.
//!
//! Integers are fixed-width little endian. A byte string is its length as a
//! 64-bit integer, then its bytes. A text is the byte string of its UTF-8
//! form. A list is its length as a 64-bit integer, then its items. Decoding
//! accepts exactly what encoding produces.

use crate::block::{transaction_views, Block, BlockView};
use crate::hash::append_bytes;
use crate::transaction::{Transaction, TransactionView};
use vstd::bytes::{
    lemma_auto_spec_u128_to_from_le_bytes, lemma_auto_spec_u64_to_from_le_bytes,
    spec_u128_from_le_bytes, spec_u128_to_le_bytes, spec_u64_from_le_bytes,
    spec_u64_to_le_bytes, u128_from_le_bytes, u128_to_le_bytes, u64_from_le_bytes,
    u64_to_le_bytes,
};
use vstd::prelude::*;
use vstd::slice::{slice_subrange, slice_to_vec};
use vstd::utf8::{
    decode_utf8, encode_utf8, encode_utf8_decode_utf8, encode_utf8_valid_utf8, valid_utf8,
};

verus! {

/// `String::from_utf8`: the text that the bytes encode, or `None` where they
/// are not valid UTF-8.
#[verifier::external_body]
fn text_from_utf8(bytes: Vec<u8>) -> (text: Option<String>)
    ensures
        text is Some == valid_utf8(bytes@),
        text is Some ==> text->0@ == decode_utf8(bytes@),
{
    String::from_utf8(bytes).ok()
}

/// The layout of a 64-bit integer.
pub open spec fn put_u64(value: u64) -> Seq<u8> {
    spec_u64_to_le_bytes(value)
}

/// Reads a 64-bit integer off the front of `input`.
pub open spec fn take_u64(input: Seq<u8>) -> Option<(u64, Seq<u8>)> {
    if input.len() >= 8 {
        Some((spec_u64_from_le_bytes(input.take(8)), input.skip(8)))
    } else {
        None
    }
}

/// The layout of a 128-bit integer.
pub open spec fn put_u128(value: u128) -> Seq<u8> {
    spec_u128_to_le_bytes(value)
}

/// Reads a 128-bit integer off the front of `input`.
pub open spec fn take_u128(input: Seq<u8>) -> Option<(u128, Seq<u8>)> {
    if input.len() >= 16 {
        Some((spec_u128_from_le_bytes(input.take(16)), input.skip(16)))
    } else {
        None
    }
}

/// The layout of a byte string.
pub open spec fn put_bytes(bytes: Seq<u8>) -> Seq<u8> {
    put_u64(bytes.len() as u64) + bytes
}

/// Reads a byte string off the front of `input`.
pub open spec fn take_bytes(input: Seq<u8>) -> Option<(Seq<u8>, Seq<u8>)> {
    match take_u64(input) {
        Some((len, rest)) => if rest.len() >= len {
            Some((rest.take(len as int), rest.skip(len as int)))
        } else {
            None
        },
        None => None,
    }
}

/// The layout of a text.
#[verifier::opaque]
pub open spec fn put_text(text: Seq<char>) -> Seq<u8> {
    put_bytes(encode_utf8(text))
}

/// Reads a text off the front of `input`.
#[verifier::opaque]
pub open spec fn take_text(input: Seq<u8>) -> Option<(Seq<char>, Seq<u8>)> {
    match take_bytes(input) {
        Some((bytes, rest)) => if valid_utf8(bytes) {
            Some((decode_utf8(bytes), rest))
        } else {
            None
        },
        None => None,
    }
}

/// The layout of a transaction: sender, recipient, amount, payload,
/// timestamp, hash.
#[verifier::opaque]
pub open spec fn put_transaction(tx: TransactionView) -> Seq<u8> {
    put_text(tx.from) + put_text(tx.to) + put_u64(tx.amount) + put_bytes(tx.data) + put_u128(
        tx.timestamp,
    ) + put_text(tx.hash)
}

/// Reads a transaction off the front of `input`.
#[verifier::opaque]
pub open spec fn take_transaction(input: Seq<u8>) -> Option<(TransactionView, Seq<u8>)> {
    match take_text(input) {
        Some((from, r1)) => match take_text(r1) {
            Some((to, r2)) => match take_u64(r2) {
                Some((amount, r3)) => match take_bytes(r3) {
                    Some((data, r4)) => match take_u128(r4) {
                        Some((timestamp, r5)) => match take_text(r5) {
                            Some((hash, r6)) => Some(
                                (TransactionView { from, to, amount, data, timestamp, hash }, r6),
                            ),
                            None => None,
                        },
                        None => None,
                    },
                    None => None,
                },
                None => None,
            },
            None => None,
        },
        None => None,
    }
}

/// The layouts of `txs`, one after the other.
pub open spec fn put_transactions(txs: Seq<TransactionView>) -> Seq<u8>
    decreases txs.len(),
{
    if txs.len() == 0 {
        Seq::empty()
    } else {
        put_transaction(txs.first()) + put_transactions(txs.drop_first())
    }
}

/// Reads `count` transactions off the front of `input`.
pub open spec fn take_transactions(input: Seq<u8>, count: nat) -> Option<
    (Seq<TransactionView>, Seq<u8>),
>
    decreases count,
{
    if count == 0 {
        Some((Seq::empty(), input))
    } else {
        match take_transaction(input) {
            Some((tx, rest)) => match take_transactions(rest, (count - 1) as nat) {
                Some((more, left)) => Some((seq![tx] + more, left)),
                None => None,
            },
            None => None,
        }
    }
}

/// The layout of a block: index, timestamp, previous hash, hash, nonce, the
/// number of transactions, the transactions.
pub open spec fn put_block(block: BlockView) -> Seq<u8> {
    put_u64(block.index) + put_u128(block.timestamp) + put_text(block.previous_hash) + put_text(
        block.hash,
    ) + put_u64(block.nonce) + put_u64(block.transactions.len() as u64) + put_transactions(
        block.transactions,
    )
}

/// Reads a block off the front of `input`.
pub open spec fn take_block(input: Seq<u8>) -> Option<(BlockView, Seq<u8>)> {
    match take_u64(input) {
        Some((index, r1)) => match take_u128(r1) {
            Some((timestamp, r2)) => match take_text(r2) {
                Some((previous_hash, r3)) => match take_text(r3) {
                    Some((hash, r4)) => match take_u64(r4) {
                        Some((nonce, r5)) => match take_u64(r5) {
                            Some((count, r6)) => match take_transactions(r6, count as nat) {
                                Some((transactions, r7)) => Some(
                                    (
                                        BlockView {
                                            index,
                                            timestamp,
                                            previous_hash,
                                            hash,
                                            transactions,
                                            nonce,
                                        },
                                        r7,
                                    ),
                                ),
                                None => None,
                            },
                            None => None,
                        },
                        None => None,
                    },
                    None => None,
                },
                None => None,
            },
            None => None,
        },
        None => None,
    }
}

/// The block that `input` is the whole layout of, if it is one.
pub open spec fn decode_block(input: Seq<u8>) -> Option<BlockView> {
    match take_block(input) {
        Some((block, rest)) => if rest.len() == 0 {
            Some(block)
        } else {
            None
        },
        None => None,
    }
}

/// Whether the lengths in a transaction fit the 64-bit length fields.
pub open spec fn transaction_fits(tx: TransactionView) -> bool {
    &&& encode_utf8(tx.from).len() <= u64::MAX
    &&& encode_utf8(tx.to).len() <= u64::MAX
    &&& tx.data.len() <= u64::MAX
    &&& encode_utf8(tx.hash).len() <= u64::MAX
}

/// Whether the lengths in a block fit the 64-bit length fields.
pub open spec fn block_fits(block: BlockView) -> bool {
    &&& encode_utf8(block.previous_hash).len() <= u64::MAX
    &&& encode_utf8(block.hash).len() <= u64::MAX
    &&& block.transactions.len() <= u64::MAX
    &&& forall|i: int|
        0 <= i < block.transactions.len() ==> transaction_fits(#[trigger] block.transactions[i])
}

/// Pieces written one after the other, and then `rest`, are the first piece
/// followed by all that comes after it, and so on down the line.
proof fn lemma_regroup(
    a: Seq<u8>,
    b: Seq<u8>,
    c: Seq<u8>,
    d: Seq<u8>,
    e: Seq<u8>,
    f: Seq<u8>,
    g: Seq<u8>,
    rest: Seq<u8>,
)
    ensures
        (a + b + c + d + e + f + g) + rest == a + (b + (c + (d + (e + (f + (g + rest)))))),
        a + b + c + d + e + f + Seq::<u8>::empty() == a + b + c + d + e + f,
        f + (Seq::<u8>::empty() + rest) == f + rest,
{
    assert((a + b + c + d + e + f + g) + rest =~= a + (b + (c + (d + (e + (f + (g + rest)))))));
    assert(a + b + c + d + e + f + Seq::<u8>::empty() =~= a + b + c + d + e + f);
    assert(Seq::<u8>::empty() + rest =~= rest);
}

/// Reading a 64-bit integer undoes writing it.
pub proof fn lemma_take_put_u64(value: u64, rest: Seq<u8>)
    ensures
        take_u64(put_u64(value) + rest) == Some((value, rest)),
{
    lemma_auto_spec_u64_to_from_le_bytes();
    let all = put_u64(value) + rest;
    assert(all.take(8) =~= put_u64(value));
    assert(all.skip(8) =~= rest);
}

/// Reading a 128-bit integer undoes writing it.
pub proof fn lemma_take_put_u128(value: u128, rest: Seq<u8>)
    ensures
        take_u128(put_u128(value) + rest) == Some((value, rest)),
{
    lemma_auto_spec_u128_to_from_le_bytes();
    let all = put_u128(value) + rest;
    assert(all.take(16) =~= put_u128(value));
    assert(all.skip(16) =~= rest);
}

/// Reading a byte string undoes writing it.
pub proof fn lemma_take_put_bytes(bytes: Seq<u8>, rest: Seq<u8>)
    requires
        bytes.len() <= u64::MAX,
    ensures
        take_bytes(put_bytes(bytes) + rest) == Some((bytes, rest)),
{
    let tail = bytes + rest;
    assert(put_bytes(bytes) + rest =~= put_u64(bytes.len() as u64) + tail);
    lemma_take_put_u64(bytes.len() as u64, tail);
    assert(tail.take(bytes.len() as int) =~= bytes);
    assert(tail.skip(bytes.len() as int) =~= rest);
}

/// Reading a text undoes writing it.
pub proof fn lemma_take_put_text(text: Seq<char>, rest: Seq<u8>)
    requires
        encode_utf8(text).len() <= u64::MAX,
    ensures
        take_text(put_text(text) + rest) == Some((text, rest)),
{
    reveal(put_text);
    reveal(take_text);
    lemma_take_put_bytes(encode_utf8(text), rest);
    encode_utf8_valid_utf8(text);
    encode_utf8_decode_utf8(text);
}

/// Reading a transaction undoes writing it.
pub proof fn lemma_take_put_transaction(tx: TransactionView, rest: Seq<u8>)
    requires
        transaction_fits(tx),
    ensures
        take_transaction(put_transaction(tx) + rest) == Some((tx, rest)),
{
    reveal(put_transaction);
    reveal(take_transaction);
    let r5 = put_text(tx.hash) + rest;
    let r4 = put_u128(tx.timestamp) + r5;
    let r3 = put_bytes(tx.data) + r4;
    let r2 = put_u64(tx.amount) + r3;
    let r1 = put_text(tx.to) + r2;
    lemma_regroup(
        put_text(tx.from),
        put_text(tx.to),
        put_u64(tx.amount),
        put_bytes(tx.data),
        put_u128(tx.timestamp),
        put_text(tx.hash),
        Seq::empty(),
        rest,
    );
    lemma_take_put_text(tx.from, r1);
    lemma_take_put_text(tx.to, r2);
    lemma_take_put_u64(tx.amount, r3);
    lemma_take_put_bytes(tx.data, r4);
    lemma_take_put_u128(tx.timestamp, r5);
    lemma_take_put_text(tx.hash, rest);
}

/// Reading a list of transactions undoes writing it.
pub proof fn lemma_take_put_transactions(txs: Seq<TransactionView>, rest: Seq<u8>)
    requires
        forall|i: int| 0 <= i < txs.len() ==> transaction_fits(#[trigger] txs[i]),
    ensures
        take_transactions(put_transactions(txs) + rest, txs.len()) == Some((txs, rest)),
    decreases txs.len(),
{
    if txs.len() == 0 {
        assert(put_transactions(txs) + rest =~= rest);
        assert(txs =~= Seq::empty());
    } else {
        let first = txs.first();
        let others = txs.drop_first();
        let tail = put_transactions(others) + rest;
        assert(put_transactions(txs) == put_transaction(first) + put_transactions(others));
        assert(put_transactions(txs) + rest =~= put_transaction(first) + tail);
        assert(transaction_fits(txs[0]));
        lemma_take_put_transaction(first, tail);
        assert forall|i: int| 0 <= i < others.len() implies transaction_fits(
            #[trigger] others[i],
        ) by {
            assert(others[i] == txs[i + 1]);
        }
        lemma_take_put_transactions(others, rest);
        assert(seq![first] + others =~= txs);
    }
}

/// Reading a block undoes writing it.
pub proof fn lemma_take_put_block(block: BlockView, rest: Seq<u8>)
    requires
        block_fits(block),
    ensures
        take_block(put_block(block) + rest) == Some((block, rest)),
{
    let count = block.transactions.len() as u64;
    let r6 = put_transactions(block.transactions) + rest;
    let r5 = put_u64(count) + r6;
    let r4 = put_u64(block.nonce) + r5;
    let r3 = put_text(block.hash) + r4;
    let r2 = put_text(block.previous_hash) + r3;
    let r1 = put_u128(block.timestamp) + r2;
    lemma_regroup(
        put_u64(block.index),
        put_u128(block.timestamp),
        put_text(block.previous_hash),
        put_text(block.hash),
        put_u64(block.nonce),
        put_u64(count),
        put_transactions(block.transactions),
        rest,
    );
    lemma_take_put_u64(block.index, r1);
    lemma_take_put_u128(block.timestamp, r2);
    lemma_take_put_text(block.previous_hash, r3);
    lemma_take_put_text(block.hash, r4);
    lemma_take_put_u64(block.nonce, r5);
    lemma_take_put_u64(count, r6);
    lemma_take_put_transactions(block.transactions, rest);
}

/// Decoding undoes encoding: a block written to bytes and read back is the
/// same block, so it recomputes to the same hash, and where the block that
/// was written carried the hash of its fields, the block read back
/// recomputes to that stored hash.
pub proof fn lemma_block_round_trip(block: BlockView)
    requires
        block_fits(block),
    ensures
        decode_block(put_block(block)) == Some(block),
        decode_block(put_block(block)) matches Some(read) && read.expected_hash()
            == block.expected_hash(),
        block.is_sealed() ==> (decode_block(put_block(block)) matches Some(read)
            && read.expected_hash() == block.hash),
{
    lemma_take_put_block(block, Seq::empty());
    assert(put_block(block) + Seq::<u8>::empty() =~= put_block(block));
}

/// Writing a list with one more transaction writes the list, then the
/// transaction.
pub proof fn lemma_put_transactions_push(txs: Seq<TransactionView>, tx: TransactionView)
    ensures
        put_transactions(txs.push(tx)) == put_transactions(txs) + put_transaction(tx),
    decreases txs.len(),
{
    let longer = txs.push(tx);
    if txs.len() == 0 {
        assert(longer.drop_first() =~= Seq::<TransactionView>::empty());
        assert(put_transactions(longer.drop_first()) =~= Seq::<u8>::empty());
        assert(put_transactions(longer) =~= put_transaction(tx));
        assert(put_transactions(txs) + put_transaction(tx) =~= put_transaction(tx));
    } else {
        assert(longer.drop_first() =~= txs.drop_first().push(tx));
        lemma_put_transactions_push(txs.drop_first(), tx);
        assert(longer.first() == txs.first());
        assert(put_transaction(txs.first()) + (put_transactions(txs.drop_first())
            + put_transaction(tx)) =~= (put_transaction(txs.first()) + put_transactions(
            txs.drop_first(),
        )) + put_transaction(tx));
    }
}

/// Whether a reader that stood at `at` now stands at `next`, before `rest`.
pub open spec fn advanced(input: Seq<u8>, at: usize, next: usize, rest: Seq<u8>) -> bool {
    &&& at <= next <= input.len()
    &&& input.skip(next as int) == rest
}

/// Appends the layout of a 64-bit integer.
pub fn write_u64(buffer: &mut Vec<u8>, value: u64)
    ensures
        final(buffer)@ == old(buffer)@ + put_u64(value),
{
    let bytes = u64_to_le_bytes(value);
    append_bytes(buffer, bytes.as_slice());
}

/// Appends the layout of a 128-bit integer.
pub fn write_u128(buffer: &mut Vec<u8>, value: u128)
    ensures
        final(buffer)@ == old(buffer)@ + put_u128(value),
{
    let bytes = u128_to_le_bytes(value);
    append_bytes(buffer, bytes.as_slice());
}

/// Appends the layout of a byte string.
pub fn write_bytes(buffer: &mut Vec<u8>, bytes: &[u8])
    ensures
        final(buffer)@ == old(buffer)@ + put_bytes(bytes@),
        bytes@.len() <= u64::MAX,
{
    write_u64(buffer, bytes.len() as u64);
    append_bytes(buffer, bytes);
    proof {
        assert(buffer@ =~= old(buffer)@ + put_bytes(bytes@));
    }
}

/// Appends the layout of a text.
pub fn write_text(buffer: &mut Vec<u8>, text: &str)
    ensures
        final(buffer)@ == old(buffer)@ + put_text(text@),
        encode_utf8(text@).len() <= u64::MAX,
{
    proof {
        reveal(put_text);
    }
    write_bytes(buffer, text.as_bytes());
}

/// Appends the layout of a transaction.
pub fn write_transaction(buffer: &mut Vec<u8>, tx: &Transaction)
    ensures
        final(buffer)@ == old(buffer)@ + put_transaction(tx@),
        transaction_fits(tx@),
{
    write_text(buffer, tx.from.as_str());
    write_text(buffer, tx.to.as_str());
    write_u64(buffer, tx.amount);
    write_bytes(buffer, tx.data.as_slice());
    write_u128(buffer, tx.timestamp);
    write_text(buffer, tx.hash.as_str());
    proof {
        reveal(put_transaction);
        assert(buffer@ =~= old(buffer)@ + put_transaction(tx@));
    }
}

/// Appends the layouts of `txs`, one after the other.
pub fn write_transactions(buffer: &mut Vec<u8>, txs: &Vec<Transaction>)
    ensures
        final(buffer)@ == old(buffer)@ + put_transactions(transaction_views(txs@)),
        forall|i: int| 0 <= i < txs@.len() ==> transaction_fits(#[trigger] txs@[i]@),
{
    let mut i: usize = 0;
    proof {
        assert(transaction_views(txs@).take(0) =~= Seq::<TransactionView>::empty());
        assert(buffer@ =~= old(buffer)@ + put_transactions(transaction_views(txs@).take(0)));
    }
    while i < txs.len()
        invariant
            i <= txs@.len(),
            buffer@ == old(buffer)@ + put_transactions(transaction_views(txs@).take(i as int)),
            forall|j: int| 0 <= j < i ==> transaction_fits(#[trigger] txs@[j]@),
        decreases txs@.len() - i,
    {
        write_transaction(buffer, &txs[i]);
        proof {
            let all = transaction_views(txs@);
            let done = all.take(i as int);
            assert(all.take(i + 1) =~= done.push(txs@[i as int]@));
            lemma_put_transactions_push(done, txs@[i as int]@);
            assert(buffer@ =~= old(buffer)@ + (put_transactions(done) + put_transaction(
                txs@[i as int]@,
            )));
        }
        i = i + 1;
    }
    proof {
        let all = transaction_views(txs@);
        assert(all.take(i as int) =~= all);
    }
}

/// Appends the layout of a block.
pub fn write_block(buffer: &mut Vec<u8>, block: &Block)
    ensures
        final(buffer)@ == old(buffer)@ + put_block(block@),
        block_fits(block@),
{
    write_u64(buffer, block.index);
    write_u128(buffer, block.timestamp);
    write_text(buffer, block.previous_hash.as_str());
    write_text(buffer, block.hash.as_str());
    write_u64(buffer, block.nonce);
    write_u64(buffer, block.transactions.len() as u64);
    write_transactions(buffer, &block.transactions);
    proof {
        assert(buffer@ =~= old(buffer)@ + put_block(block@));
    }
}

/// Reads a 64-bit integer at position `at`.
pub fn read_u64(input: &[u8], at: usize) -> (out: Option<(u64, usize)>)
    requires
        at <= input@.len(),
    ensures
        match (out, take_u64(input@.skip(at as int))) {
            (Some((value, next)), Some((taken, rest))) => value == taken && advanced(
                input@,
                at,
                next,
                rest,
            ),
            (None, None) => true,
            _ => false,
        },
{
    if input.len() - at < 8 {
        return None;
    }
    let field = slice_subrange(input, at, at + 8);
    proof {
        assert(input@.skip(at as int).take(8) =~= field@);
        assert(input@.skip(at as int).skip(8) =~= input@.skip(at + 8));
    }
    Some((u64_from_le_bytes(field), at + 8))
}

/// Reads a 128-bit integer at position `at`.
pub fn read_u128(input: &[u8], at: usize) -> (out: Option<(u128, usize)>)
    requires
        at <= input@.len(),
    ensures
        match (out, take_u128(input@.skip(at as int))) {
            (Some((value, next)), Some((taken, rest))) => value == taken && advanced(
                input@,
                at,
                next,
                rest,
            ),
            (None, None) => true,
            _ => false,
        },
{
    if input.len() - at < 16 {
        return None;
    }
    let field = slice_subrange(input, at, at + 16);
    proof {
        assert(input@.skip(at as int).take(16) =~= field@);
        assert(input@.skip(at as int).skip(16) =~= input@.skip(at + 16));
    }
    Some((u128_from_le_bytes(field), at + 16))
}

/// Reads a byte string at position `at`.
pub fn read_bytes(input: &[u8], at: usize) -> (out: Option<(Vec<u8>, usize)>)
    requires
        at <= input@.len(),
    ensures
        match (out, take_bytes(input@.skip(at as int))) {
            (Some((value, next)), Some((taken, rest))) => value@ == taken && advanced(
                input@,
                at,
                next,
                rest,
            ),
            (None, None) => true,
            _ => false,
        },
{
    match read_u64(input, at) {
        None => None,
        Some((len, start)) => {
            if len > (input.len() - start) as u64 {
                return None;
            }
            let end = start + len as usize;
            let field = slice_subrange(input, start, end);
            proof {
                assert(input@.skip(start as int).take(len as int) =~= field@);
                assert(input@.skip(start as int).skip(len as int) =~= input@.skip(end as int));
            }
            Some((slice_to_vec(field), end))
        },
    }
}

/// Reads a text at position `at`.
pub fn read_text(input: &[u8], at: usize) -> (out: Option<(String, usize)>)
    requires
        at <= input@.len(),
    ensures
        match (out, take_text(input@.skip(at as int))) {
            (Some((value, next)), Some((taken, rest))) => value@ == taken && advanced(
                input@,
                at,
                next,
                rest,
            ),
            (None, None) => true,
            _ => false,
        },
{
    proof {
        reveal(take_text);
    }
    match read_bytes(input, at) {
        None => None,
        Some((bytes, next)) => match text_from_utf8(bytes) {
            None => None,
            Some(text) => Some((text, next)),
        },
    }
}

/// Reads a transaction at position `at`.
pub fn read_transaction(input: &[u8], at: usize) -> (out: Option<(Transaction, usize)>)
    requires
        at <= input@.len(),
    ensures
        match (out, take_transaction(input@.skip(at as int))) {
            (Some((value, next)), Some((taken, rest))) => value@ == taken && advanced(
                input@,
                at,
                next,
                rest,
            ),
            (None, None) => true,
            _ => false,
        },
{
    proof {
        reveal(take_transaction);
    }
    let (from, n1) = match read_text(input, at) {
        Some(read) => read,
        None => {
            return None;
        },
    };
    let (to, n2) = match read_text(input, n1) {
        Some(read) => read,
        None => {
            return None;
        },
    };
    let (amount, n3) = match read_u64(input, n2) {
        Some(read) => read,
        None => {
            return None;
        },
    };
    let (data, n4) = match read_bytes(input, n3) {
        Some(read) => read,
        None => {
            return None;
        },
    };
    let (timestamp, n5) = match read_u128(input, n4) {
        Some(read) => read,
        None => {
            return None;
        },
    };
    let (hash, n6) = match read_text(input, n5) {
        Some(read) => read,
        None => {
            return None;
        },
    };
    Some((Transaction { from, to, amount, data, timestamp, hash }, n6))
}

/// `done` in front of what reading further yields.
spec fn continue_reading(
    done: Seq<TransactionView>,
    further: Option<(Seq<TransactionView>, Seq<u8>)>,
) -> Option<(Seq<TransactionView>, Seq<u8>)> {
    match further {
        Some((more, left)) => Some((done + more, left)),
        None => None,
    }
}

/// Reads `count` transactions at position `at`.
pub fn read_transactions(input: &[u8], at: usize, count: u64) -> (out: Option<
    (Vec<Transaction>, usize),
>)
    requires
        at <= input@.len(),
    ensures
        match (out, take_transactions(input@.skip(at as int), count as nat)) {
            (Some((value, next)), Some((taken, rest))) => {
                &&& transaction_views(value@) == taken
                &&& advanced(input@, at, next, rest)
            },
            (None, None) => true,
            _ => false,
        },
{
    let mut txs: Vec<Transaction> = Vec::new();
    let mut next: usize = at;
    let mut i: u64 = 0;
    proof {
        let further = take_transactions(input@.skip(at as int), count as nat);
        assert(transaction_views(txs@) =~= Seq::<TransactionView>::empty());
        match further {
            Some((more, left)) => {
                assert(Seq::<TransactionView>::empty() + more =~= more);
            },
            None => {},
        }
    }
    while i < count
        invariant
            i <= count,
            at <= next <= input@.len(),
            take_transactions(input@.skip(at as int), count as nat) == continue_reading(
                transaction_views(txs@),
                take_transactions(input@.skip(next as int), (count - i) as nat),
            ),
        decreases count - i,
    {
        let ghost done = transaction_views(txs@);
        match read_transaction(input, next) {
            None => {
                return None;
            },
            Some((tx, after)) => {
                proof {
                    let further = take_transactions(
                        input@.skip(after as int),
                        (count - i - 1) as nat,
                    );
                    assert(transaction_views(txs@.push(tx)) =~= done.push(tx@));
                    match further {
                        Some((more, left)) => {
                            assert(done + (seq![tx@] + more) =~= done.push(tx@) + more);
                        },
                        None => {},
                    }
                }
                txs.push(tx);
                next = after;
                i = i + 1;
            },
        }
    }
    proof {
        assert(transaction_views(txs@) + Seq::<TransactionView>::empty() =~= transaction_views(
            txs@,
        ));
    }
    Some((txs, next))
}

/// Reads a block at position `at`.
pub fn read_block(input: &[u8], at: usize) -> (out: Option<(Block, usize)>)
    requires
        at <= input@.len(),
    ensures
        match (out, take_block(input@.skip(at as int))) {
            (Some((value, next)), Some((taken, rest))) => value@ == taken && advanced(
                input@,
                at,
                next,
                rest,
            ),
            (None, None) => true,
            _ => false,
        },
{
    let (index, n1) = match read_u64(input, at) {
        Some(read) => read,
        None => {
            return None;
        },
    };
    let (timestamp, n2) = match read_u128(input, n1) {
        Some(read) => read,
        None => {
            return None;
        },
    };
    let (previous_hash, n3) = match read_text(input, n2) {
        Some(read) => read,
        None => {
            return None;
        },
    };
    let (hash, n4) = match read_text(input, n3) {
        Some(read) => read,
        None => {
            return None;
        },
    };
    let (nonce, n5) = match read_u64(input, n4) {
        Some(read) => read,
        None => {
            return None;
        },
    };
    let (count, n6) = match read_u64(input, n5) {
        Some(read) => read,
        None => {
            return None;
        },
    };
    let (transactions, n7) = match read_transactions(input, n6, count) {
        Some(read) => read,
        None => {
            return None;
        },
    };
    Some((Block { index, timestamp, previous_hash, hash, transactions, nonce }, n7))
}

impl Block {
    /// The binary layout of this block. Decoding it gives the block back.
    pub fn encode(&self) -> (out: Vec<u8>)
        ensures
            out@ == put_block(self@),
            decode_block(out@) == Some(self@),
    {
        let mut out: Vec<u8> = Vec::new();
        write_block(&mut out, self);
        proof {
            assert(out@ =~= put_block(self@));
            lemma_block_round_trip(self@);
        }
        out
    }

    /// The block that `bytes` is the whole binary layout of, or `None` where
    /// it is not the layout of a block.
    pub fn decode(bytes: &[u8]) -> (out: Option<Block>)
        ensures
            match (out, decode_block(bytes@)) {
                (Some(block), Some(decoded)) => block@ == decoded,
                (None, None) => true,
                _ => false,
            },
    {
        proof {
            assert(bytes@.skip(0) =~= bytes@);
        }
        match read_block(bytes, 0) {
            Some((block, next)) => {
                if next == bytes.len() {
                    Some(block)
                } else {
                    None
                }
            },
            None => None,
        }
    }
}

} // verus!
