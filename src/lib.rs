//! An append-only log of fixed-size, address-tagged records, with an optional
//! public-key sealing layer over the message payload.
//!
//! - `le`: little-endian byte encoding of integers.
//! - `block`: one record and its 544-byte binary layout.
//! - `seal`: PKCS#1 v1.5 encryption and decryption of payloads.
//! - `store`: the append-only block file handle.
pub mod le;
pub mod block;
pub mod seal;
pub mod store;
