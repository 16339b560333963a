//! Key recovery and transaction signing for an Ethereum-style chain.
//!
//! The crate decodes a password-protected keystore record, derives and
//! authenticates the key material, decrypts the secret signing key, and uses
//! it to assemble, canonically encode and sign a transaction ready for
//! submission over JSON-RPC.

pub mod beint;
pub mod hexs;
pub mod jsonio;
pub mod keys;
pub mod keystore;
pub mod primitives;
pub mod rlp;
pub mod rpc;
pub mod tx;
