//! A client for a ledger node that describes its own schema: metadata
//! lookups, storage key derivation, event decoding and the tracking of
//! submitted transactions.

pub mod error;
pub mod status;
pub mod hashing;
pub mod storage;
pub mod metadata;
pub mod scale;
pub mod events;
pub mod response;
pub mod account;
pub mod schema;
pub mod roundtrip;
