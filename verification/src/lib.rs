//! A minimal append-only ledger: hash-linked blocks of transactions, extended
//! by proof-of-work mining, kept in a record store and exchanged between
//! peers.
//!
//! The crate is written for Verus. Contracts are stated over the `View` of
//! each type, and the functions are proved against them.
//!
//! - [`hash`]: content hashing, SHA-256 in lowercase hexadecimal.
//! - [`encoding`]: decimal renderings that enter the hashed layouts.
//! - [`pow`]: the proof-of-work target.
//! - [`transaction`] and [`block`]: the records, their hashes and mining.
//! - [`storage`]: block records keyed by hash, and the tip pointer.
//! - [`blockchain`]: construction, mining, validation and fork choice.
//! - [`network`]: the peer messages and what a node does on receiving one.
//! - [`codec`]: the binary layout of blocks for storing them.
//! - [`clock`]: the wall clock.
//!
//! Not proved, but believed as documented where they stand: the SHA-256
//! digest (`sha2`), the hexadecimal rendering (`hex`), the quoting of JSON
//! strings (`serde_json`), the UTF-8 check of `String::from_utf8`, and the
//! clock of `std::time`.

pub mod block;
pub mod blockchain;
pub mod clock;
pub mod codec;
pub mod encoding;
pub mod hash;
pub mod network;
pub mod pow;
pub mod storage;
pub mod transaction;

pub use block::Block;
pub use blockchain::Blockchain;
pub use network::NetworkMessage;
pub use storage::Storage;
pub use transaction::Transaction;
