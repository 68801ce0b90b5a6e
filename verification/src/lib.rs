//! Transaction construction and co-signing core of a non-custodial Bitcoin
//! wallet: derivation paths, keys and descriptor templates; coin selection
//! and fee computation; fee bumping; and partially signed transactions, from
//! their encoding to the merging of signatures and the final transaction.
//!
//! What executes here is verified against the contracts it carries. What is
//! taken from outside (hashing, key derivation, the text forms of keys,
//! descriptors and addresses) stands behind functions whose contracts are
//! believed, each named after a result that it does not define.

pub mod error;
pub mod types;
pub mod primitives;
pub mod script;
pub mod fee;
pub mod path;
pub mod keys;
pub mod descriptor;
pub mod address;
pub mod mnemonic;
pub mod tx;
pub mod tx_codec;
pub mod builder;
pub mod tx_builder;
pub mod bump;
pub mod psbt;
pub mod psbt_codec;
pub mod finalize;
pub mod wallet;
pub mod api;
