//! A signing client for an Ethereum-style JSON-RPC node: the pure core.
//!
//! The crate holds the parts of such a client that decide and compute: the
//! ABI codec, the contract interface, the signer, the nonce and gas resolver
//! and the life cycle of a pending transaction. Network traffic is left to
//! the caller, who hands in what the node answered as plain values.

pub mod abi;
pub mod abi_decode;
pub mod abi_encode;
pub mod abi_laws;
pub mod client;
pub mod hash;
pub mod interface;
pub mod resolver;
pub mod signer;
pub mod types;
pub mod word;
