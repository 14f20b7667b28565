//! Transactions: an atomic record of value transfer that carries its own
//! content hash.

use crate::clock::now_millis;
use crate::encoding::{decimal_digits, decimal_list, push_decimal, push_decimal_list};
use crate::hash::{
    append_bytes, calculate_hash, digest_hex, hex_chars, hex_digit, hex_encode,
};
use vstd::prelude::*;
use vstd::slice::slice_to_vec;
use vstd::std_specs::cmp::PartialEqSpecImpl;
use vstd::string::StringExecFns;
use vstd::utf8::encode_utf8;

verus! {

/// The JSON form of one character inside a string literal: a backslash
/// escape for the quote, the backslash and the control characters, and the
/// character's own UTF-8 bytes otherwise.
pub open spec fn json_escape(c: char) -> Seq<u8> {
    if c == '"' {
        seq![92u8, 34u8]
    } else if c == '\\' {
        seq![92u8, 92u8]
    } else if c == '\u{8}' {
        seq![92u8, 98u8]
    } else if c == '\u{c}' {
        seq![92u8, 102u8]
    } else if c == '\n' {
        seq![92u8, 110u8]
    } else if c == '\r' {
        seq![92u8, 114u8]
    } else if c == '\t' {
        seq![92u8, 116u8]
    } else if (c as u32) < 32 {
        seq![
            92u8,
            117u8,
            48u8,
            48u8,
            hex_digit(c as u32 as int / 16) as u8,
            hex_digit(c as u32 as int % 16) as u8,
        ]
    } else {
        encode_utf8(seq![c])
    }
}

/// The JSON forms of the characters of `text`, one after the other.
pub open spec fn json_escaped(text: Seq<char>) -> Seq<u8>
    decreases text.len(),
{
    if text.len() == 0 {
        Seq::empty()
    } else {
        json_escaped(text.drop_last()) + json_escape(text.last())
    }
}

/// The JSON string literal for a text: the escaped characters between two
/// quotes.
pub open spec fn json_string(text: Seq<char>) -> Seq<u8> {
    seq![34u8] + json_escaped(text) + seq![34u8]
}

/// `serde_json::to_vec` on a string slice: the text as a JSON string
/// literal. The quote and the backslash get a backslash in front; backspace,
/// form feed, line feed, carriage return and tab become `\b`, `\f`, `\n`,
/// `\r`, `\t`; every other character below U+0020 becomes `\u00` and two
/// lowercase hexadecimal digits; all else is written as it is. Writing a
/// string to a vector cannot fail.
#[verifier::external_body]
fn json_quote(text: &str) -> (out: Vec<u8>)
    ensures
        out@ == json_string(text@),
{
    serde_json::to_vec(text).unwrap_or_default()
}

/// A transfer of `amount` from `from` to `to` with an opaque payload, stamped
/// with its creation time and its content hash.
#[derive(Debug)]
pub struct Transaction {
    pub from: String,
    pub to: String,
    pub amount: u64,
    pub data: Vec<u8>,
    pub timestamp: u128,
    pub hash: String,
}

/// The mathematical value of a [`Transaction`].
pub struct TransactionView {
    pub from: Seq<char>,
    pub to: Seq<char>,
    pub amount: u64,
    pub data: Seq<u8>,
    pub timestamp: u128,
    pub hash: Seq<char>,
}

/// The bytes that a transaction's content hash is taken over: sender,
/// recipient, amount in decimal, payload in hexadecimal, timestamp in decimal,
/// with nothing between them.
pub open spec fn hash_preimage(
    from: Seq<char>,
    to: Seq<char>,
    amount: u64,
    data: Seq<u8>,
    timestamp: u128,
) -> Seq<u8> {
    encode_utf8(from) + encode_utf8(to) + decimal_digits(amount as nat) + encode_utf8(
        hex_chars(data),
    ) + decimal_digits(timestamp as nat)
}

/// The content hash of the five hashed fields of a transaction.
pub open spec fn content_hash(
    from: Seq<char>,
    to: Seq<char>,
    amount: u64,
    data: Seq<u8>,
    timestamp: u128,
) -> Seq<char> {
    digest_hex(hash_preimage(from, to, amount, data, timestamp))
}

/// The canonical record layout, given the three quoted texts: a JSON object
/// with the fields `from`, `to`, `amount`, `data`, `timestamp`, `hash`, in
/// that order, without whitespace.
pub open spec fn record_layout(
    from_quoted: Seq<u8>,
    to_quoted: Seq<u8>,
    amount: u64,
    data: Seq<u8>,
    timestamp: u128,
    hash_quoted: Seq<u8>,
) -> Seq<u8> {
    encode_utf8("{\"from\":"@) + from_quoted + encode_utf8(",\"to\":"@) + to_quoted + encode_utf8(
        ",\"amount\":"@,
    ) + decimal_digits(amount as nat) + encode_utf8(",\"data\":["@) + decimal_list(data)
        + encode_utf8("],\"timestamp\":"@) + decimal_digits(timestamp as nat) + encode_utf8(
        ",\"hash\":"@,
    ) + hash_quoted + encode_utf8("}"@)
}

impl TransactionView {
    /// The hash that the hashed fields call for.
    pub open spec fn expected_hash(self) -> Seq<char> {
        content_hash(self.from, self.to, self.amount, self.data, self.timestamp)
    }

    /// Whether the stored hash is the content hash of the other fields.
    pub open spec fn is_sealed(self) -> bool {
        self.hash == self.expected_hash()
    }

    /// The canonical serialization that enters a block's hash.
    pub open spec fn record_bytes(self) -> Seq<u8> {
        record_layout(
            json_string(self.from),
            json_string(self.to),
            self.amount,
            self.data,
            self.timestamp,
            json_string(self.hash),
        )
    }
}

/// The fixed payload of the genesis transaction.
pub open spec fn genesis_payload() -> Seq<u8> {
    encode_utf8("Budlum Genesis Block"@)
}

/// The fixed genesis transaction: from and to `genesis`, amount 0, the fixed
/// payload, timestamp 0, sealed.
pub open spec fn genesis_transaction() -> TransactionView {
    TransactionView {
        from: "genesis"@,
        to: "genesis"@,
        amount: 0,
        data: genesis_payload(),
        timestamp: GENESIS_TIMESTAMP,
        hash: content_hash("genesis"@, "genesis"@, 0, genesis_payload(), GENESIS_TIMESTAMP),
    }
}

/// The timestamp of the genesis transaction and block. It is fixed so that
/// every node builds the same genesis block.
pub const GENESIS_TIMESTAMP: u128 = 0;

impl View for Transaction {
    type V = TransactionView;

    open spec fn view(&self) -> TransactionView {
        TransactionView {
            from: self.from@,
            to: self.to@,
            amount: self.amount,
            data: self.data@,
            timestamp: self.timestamp,
            hash: self.hash@,
        }
    }
}

/// Whether two byte slices hold the same bytes.
pub fn bytes_equal(a: &[u8], b: &[u8]) -> (same: bool)
    ensures
        same == (a@ == b@),
{
    if a.len() != b.len() {
        return false;
    }
    let mut i: usize = 0;
    while i < a.len()
        invariant
            i <= a.len(),
            a.len() == b.len(),
            a@.take(i as int) == b@.take(i as int),
        decreases a.len() - i,
    {
        if a[i] != b[i] {
            return false;
        }
        proof {
            assert(a@.take(i + 1) == a@.take(i as int).push(a@[i as int]));
            assert(b@.take(i + 1) == b@.take(i as int).push(b@[i as int]));
        }
        i = i + 1;
    }
    proof {
        assert(a@.take(i as int) == a@);
        assert(b@.take(i as int) == b@);
    }
    true
}

impl Transaction {
    /// Creates a transaction stamped with the current time and sealed with
    /// its content hash. Neither party nor the amount is validated.
    pub fn new(from: String, to: String, amount: u64, data: Vec<u8>) -> (tx: Transaction)
        ensures
            tx@.from == from@,
            tx@.to == to@,
            tx@.amount == amount,
            tx@.data == data@,
            tx@.is_sealed(),
    {
        let timestamp = now_millis();
        Transaction::with_timestamp(from, to, amount, data, timestamp)
    }

    /// Creates a transaction with the given creation time, sealed with its
    /// content hash.
    pub fn with_timestamp(
        from: String,
        to: String,
        amount: u64,
        data: Vec<u8>,
        timestamp: u128,
    ) -> (tx: Transaction)
        ensures
            tx@ == (TransactionView {
                from: from@,
                to: to@,
                amount,
                data: data@,
                timestamp,
                hash: content_hash(from@, to@, amount, data@, timestamp),
            }),
            tx@.is_sealed(),
            tx@.hash.len() == 64,
    {
        let mut tx = Transaction { from, to, amount, data, timestamp, hash: String::new() };
        tx.hash = tx.calculate_hash();
        tx
    }

    /// The fixed genesis transaction.
    pub fn genesis() -> (tx: Transaction)
        ensures
            tx@ == genesis_transaction(),
            tx@.is_sealed(),
    {
        Transaction::with_timestamp(
            String::from_str("genesis"),
            String::from_str("genesis"),
            0,
            slice_to_vec("Budlum Genesis Block".as_bytes()),
            GENESIS_TIMESTAMP,
        )
    }

    /// The bytes that the content hash is taken over.
    pub fn preimage(&self) -> (out: Vec<u8>)
        ensures
            out@ == hash_preimage(
                self@.from,
                self@.to,
                self@.amount,
                self@.data,
                self@.timestamp,
            ),
    {
        let mut out: Vec<u8> = Vec::new();
        append_bytes(&mut out, self.from.as_str().as_bytes());
        append_bytes(&mut out, self.to.as_str().as_bytes());
        push_decimal(&mut out, self.amount as u128);
        let payload = hex_encode(self.data.as_slice());
        append_bytes(&mut out, payload.as_str().as_bytes());
        push_decimal(&mut out, self.timestamp);
        out
    }

    /// Recomputes the content hash from the current fields. The stored hash
    /// is neither read nor changed.
    pub fn calculate_hash(&self) -> (out: String)
        ensures
            out@ == self@.expected_hash(),
            out@.len() == 64,
    {
        let bytes = self.preimage();
        calculate_hash(bytes.as_slice())
    }

    /// Whether the stored hash is the content hash of the other fields.
    pub fn is_sealed(&self) -> (ok: bool)
        ensures
            ok == self@.is_sealed(),
    {
        let expected = self.calculate_hash();
        self.hash == expected
    }

    /// The canonical serialization that enters a block's hash.
    pub fn to_bytes(&self) -> (out: Vec<u8>)
        ensures
            out@ == self@.record_bytes(),
    {
        let from_quoted = json_quote(self.from.as_str());
        let to_quoted = json_quote(self.to.as_str());
        let hash_quoted = json_quote(self.hash.as_str());
        frame_record(
            from_quoted.as_slice(),
            to_quoted.as_slice(),
            self.amount,
            self.data.as_slice(),
            self.timestamp,
            hash_quoted.as_slice(),
        )
    }
}

/// Lays out a transaction record from its three quoted texts and its plain
/// fields.
pub fn frame_record(
    from_quoted: &[u8],
    to_quoted: &[u8],
    amount: u64,
    data: &[u8],
    timestamp: u128,
    hash_quoted: &[u8],
) -> (out: Vec<u8>)
    ensures
        out@ == record_layout(from_quoted@, to_quoted@, amount, data@, timestamp, hash_quoted@),
{
    let mut out: Vec<u8> = Vec::new();
    append_bytes(&mut out, "{\"from\":".as_bytes());
    append_bytes(&mut out, from_quoted);
    append_bytes(&mut out, ",\"to\":".as_bytes());
    append_bytes(&mut out, to_quoted);
    append_bytes(&mut out, ",\"amount\":".as_bytes());
    push_decimal(&mut out, amount as u128);
    append_bytes(&mut out, ",\"data\":[".as_bytes());
    push_decimal_list(&mut out, data);
    append_bytes(&mut out, "],\"timestamp\":".as_bytes());
    push_decimal(&mut out, timestamp);
    append_bytes(&mut out, ",\"hash\":".as_bytes());
    append_bytes(&mut out, hash_quoted);
    append_bytes(&mut out, "}".as_bytes());
    out
}

impl Clone for Transaction {
    fn clone(&self) -> (copy: Transaction)
        ensures
            copy@ == self@,
    {
        Transaction {
            from: self.from.clone(),
            to: self.to.clone(),
            amount: self.amount,
            data: slice_to_vec(self.data.as_slice()),
            timestamp: self.timestamp,
            hash: self.hash.clone(),
        }
    }
}

impl PartialEq for Transaction {
    fn eq(&self, other: &Transaction) -> (same: bool) {
        self.from == other.from && self.to == other.to && self.amount == other.amount
            && bytes_equal(self.data.as_slice(), other.data.as_slice()) && self.timestamp
            == other.timestamp && self.hash == other.hash
    }
}

impl PartialEqSpecImpl for Transaction {
    open spec fn obeys_eq_spec() -> bool {
        true
    }

    open spec fn eq_spec(&self, other: &Transaction) -> bool {
        self@ == other@
    }
}

} // verus!
