//! Content hashing: SHA-256 rendered as 64 lowercase hexadecimal characters.

use sha2::Digest;
use vstd::prelude::*;

verus! {

/// The SHA-256 digest of a byte sequence.
pub uninterp spec fn sha256(bytes: Seq<u8>) -> Seq<u8>;

/// The lowercase hexadecimal digit of a value below sixteen.
pub open spec fn hex_digit(nibble: int) -> char {
    seq!['0', '1', '2', '3', '4', '5', '6', '7', '8', '9', 'a', 'b', 'c', 'd', 'e', 'f'][nibble]
}

/// Two lowercase hexadecimal digits per byte, the high half first.
pub open spec fn hex_chars(bytes: Seq<u8>) -> Seq<char> {
    Seq::new(
        2 * bytes.len(),
        |i: int|
            if i % 2 == 0 {
                hex_digit(bytes[i / 2] as int / 16)
            } else {
                hex_digit(bytes[i / 2] as int % 16)
            },
    )
}

/// The content hash of a byte sequence: its digest in hexadecimal.
pub open spec fn digest_hex(bytes: Seq<u8>) -> Seq<char> {
    hex_chars(sha256(bytes))
}

/// The byte sequences of `parts`, one after the other.
pub open spec fn concat_all(parts: Seq<Seq<u8>>) -> Seq<u8>
    decreases parts.len(),
{
    if parts.len() == 0 {
        Seq::empty()
    } else {
        concat_all(parts.drop_last()) + parts.last()
    }
}

/// The contents of a list of byte slices.
pub open spec fn slices_view(fields: Seq<&[u8]>) -> Seq<Seq<u8>> {
    Seq::new(fields.len(), |i: int| fields[i]@)
}

/// Whether a character is one of `0`-`9`, `a`-`f`.
pub open spec fn is_lower_hex(c: char) -> bool {
    ('0' <= c && c <= '9') || ('a' <= c && c <= 'f')
}

/// `Sha256::digest` of the `sha2` crate: the contract names its result
/// `sha256` of the input and states that a SHA-256 digest has 32 bytes.
#[verifier::external_body]
fn sha256_digest(bytes: &[u8]) -> (out: Vec<u8>)
    ensures
        out@ == sha256(bytes@),
        out@.len() == 32,
{
    sha2::Sha256::digest(bytes).to_vec()
}

/// `hex::encode`: each byte becomes two lowercase hexadecimal digits, the
/// high half first, in the order of the input.
#[verifier::external_body]
pub(crate) fn hex_encode(bytes: &[u8]) -> (text: String)
    ensures
        text@ == hex_chars(bytes@),
{
    hex::encode(bytes)
}

/// A hexadecimal rendering is twice as long as its input and holds only
/// lowercase hexadecimal digits.
pub proof fn lemma_hex_chars_shape(bytes: Seq<u8>)
    ensures
        hex_chars(bytes).len() == 2 * bytes.len(),
        forall|i: int|
            0 <= i < hex_chars(bytes).len() ==> is_lower_hex(#[trigger] hex_chars(bytes)[i]),
{
    assert forall|i: int| 0 <= i < hex_chars(bytes).len() implies is_lower_hex(
        #[trigger] hex_chars(bytes)[i],
    ) by {
        let b = bytes[i / 2] as int;
        let n = if i % 2 == 0 { b / 16 } else { b % 16 };
        assert(0 <= n < 16);
        assert(hex_chars(bytes)[i] == hex_digit(n));
    }
}

/// Hashes `data`: the SHA-256 digest as 64 lowercase hexadecimal characters.
pub fn calculate_hash(data: &[u8]) -> (out: String)
    ensures
        out@ == digest_hex(data@),
        out@.len() == 64,
        forall|i: int| 0 <= i < 64 ==> is_lower_hex(#[trigger] out@[i]),
{
    let digest = sha256_digest(data);
    proof {
        lemma_hex_chars_shape(digest@);
    }
    hex_encode(digest.as_slice())
}

/// Hashes the concatenation of `fields`, in the given order.
pub fn hash_fields(fields: &[&[u8]]) -> (out: String)
    ensures
        out@ == digest_hex(concat_all(slices_view(fields@))),
        out@.len() == 64,
{
    let mut buffer: Vec<u8> = Vec::new();
    let mut i: usize = 0;
    while i < fields.len()
        invariant
            i <= fields.len(),
            buffer@ == concat_all(slices_view(fields@).take(i as int)),
        decreases fields.len() - i,
    {
        let field: &[u8] = fields[i];
        append_bytes(&mut buffer, field);
        proof {
            let parts = slices_view(fields@);
            assert(parts.take(i + 1).drop_last() == parts.take(i as int));
            assert(parts.take(i + 1).last() == field@);
        }
        i = i + 1;
    }
    proof {
        assert(slices_view(fields@).take(i as int) == slices_view(fields@));
    }
    calculate_hash(buffer.as_slice())
}

/// Appends a copy of `bytes` to `buffer`.
pub fn append_bytes(buffer: &mut Vec<u8>, bytes: &[u8])
    ensures
        final(buffer)@ == old(buffer)@ + bytes@,
{
    let mut k: usize = 0;
    while k < bytes.len()
        invariant
            k <= bytes.len(),
            buffer@ == old(buffer)@ + bytes@.take(k as int),
        decreases bytes.len() - k,
    {
        buffer.push(bytes[k]);
        proof {
            assert(bytes@.take(k + 1) == bytes@.take(k as int).push(bytes@[k as int]));
        }
        k = k + 1;
    }
    proof {
        assert(bytes@.take(k as int) == bytes@);
    }
}

} // verus!
