//! Threshold-encrypted, nullifier-authenticated elections as a verified
//! append-only state machine.
pub mod codec;
pub mod contract;
pub mod crypto;
pub mod digest;
pub mod error;
pub mod keyset;
pub mod laws;
pub mod merkle;
pub mod model;
pub mod types;

pub use codec::serialise_shares;
pub use contract::ElectionContract;
pub use digest::{cast_msg, issue_msg, shares_msg};
pub use error::ContractError;
pub use merkle::{leaf_hash, node_hash, verify};
pub use types::{DataKey, ElectionParams, EncryptedBallot, Event};
